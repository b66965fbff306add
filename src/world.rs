//! The world: a grid of tiles and entities, the global game context, and the
//! deferred commands through which entities change them.

use vstd::prelude::*;
use crate::damage::{DmgInst, DmgType};
use crate::entity::{En, Special, hp_after};
use crate::point::Point;
use crate::vfx::{Glyph, Vfx};

verus! {

/// Largest width or height of a world: cells on the grid have coordinates
/// within [`crate::point::COORD_MAX`].
pub const GRID_MAX: usize = 0x3fff_ffff;

/// An axis-aligned rectangle of cells, both corners included.
#[derive(Clone, Copy, Debug, PartialEq, Eq, Structural)]
pub struct Rect {
    pub x0: i32,
    pub y0: i32,
    pub x1: i32,
    pub y1: i32,
}

impl Rect {
    pub open spec fn contains_spec(self, p: Point) -> bool {
        self.x0 <= p.x <= self.x1 && self.y0 <= p.y <= self.y1
    }

    /// Whether `p` lies in the rectangle.
    pub fn contains(&self, p: Point) -> (r: bool)
        ensures
            r == self.contains_spec(p),
    {
        self.x0 <= p.x && p.x <= self.x1 && self.y0 <= p.y && p.y <= self.y1
    }
}

/// Something that happens when an entity steps on a tile.
#[derive(Clone, Copy, Debug, PartialEq, Eq, Structural)]
pub enum StepEffect {
    /// Pushes the entity on in this direction.
    Conveyor(Point),
    /// Ends the floor when the player reaches it.
    Exit,
    /// A key of this kind, picked up by the player.
    Key(u32),
}

/// A single tile in a map.
#[derive(Clone, Copy, Debug)]
pub struct Tile {
    /// Whether there is nothing there.
    pub empt: bool,
    /// Whether passage through this tile is barred.
    pub blocking: bool,
    /// Whether the tile has been seen before.
    pub revealed: bool,
    /// Glyph drawn for this tile instead of the default.
    pub ch: Option<Glyph>,
    /// The rooms that a door tile connects.
    pub door: Option<(Rect, Rect)>,
    /// Key kind required to unlock this tile.
    pub locked: Option<u32>,
    /// Whether the tile makes entities slide.
    pub slippery: bool,
    /// What happens when an entity steps here.
    pub step_effect: Option<StepEffect>,
}

impl Tile {
    /// The tile is locked and a key of its kind has been collected.
    pub open spec fn unlockable_spec(self, keys: Seq<u32>) -> bool {
        match self.locked {
            Some(k) => k < keys.len() && keys[k as int] > 0,
            None => false,
        }
    }

    /// An empty, unrevealed, passable tile.
    pub fn empty() -> (r: Tile)
        ensures
            r.empt,
            !r.blocking,
            !r.revealed,
            r.ch.is_none(),
            r.door.is_none(),
            r.locked.is_none(),
            !r.slippery,
            r.step_effect.is_none(),
    {
        Tile {
            empt: true,
            blocking: false,
            revealed: false,
            ch: None,
            door: None,
            locked: None,
            slippery: false,
            step_effect: None,
        }
    }

    /// An empty revealed tile.
    pub fn new_empty() -> (r: Tile)
        ensures
            r == (Tile { revealed: true, ..Tile::empty_spec() }),
    {
        let mut t = Tile::empty();
        t.revealed = true;
        t
    }

    pub open spec fn empty_spec() -> Tile {
        Tile {
            empt: true,
            blocking: false,
            revealed: false,
            ch: None,
            door: None,
            locked: None,
            slippery: false,
            step_effect: None,
        }
    }

    /// The glyph drawn for this tile: blank until revealed, then its own
    /// glyph if it has one, else a wall or floor mark in colour `wall_clr`,
    /// or blank for empty space.
    pub fn repr(&self, wall_clr: crossterm::style::Color) -> (r: Glyph)
        ensures
            !self.revealed ==> r == Glyph::plain_spec(' '),
            self.revealed && self.ch is Some ==> r == self.ch->Some_0,
            self.revealed && self.ch is None && self.blocking ==> r == Glyph::with_spec('#', wall_clr),
            self.revealed && self.ch is None && !self.blocking && !self.empt ==> r == Glyph::with_spec('.', wall_clr),
            self.revealed && self.ch is None && !self.blocking && self.empt ==> r == Glyph::plain_spec(' '),
    {
        if !self.revealed {
            Glyph::plain(' ')
        } else if let Some(c) = self.ch {
            c
        } else if self.blocking {
            Glyph::with('#', wall_clr)
        } else if !self.empt {
            Glyph::with('.', wall_clr)
        } else {
            Glyph::plain(' ')
        }
    }

    /// Whether the tile is locked and its key has been collected.
    pub fn unlockable(&self, keys: &Vec<u32>) -> (r: bool)
        ensures
            r == self.unlockable_spec(keys@),
    {
        match self.locked {
            Some(k) => (k as usize) < keys.len() && keys[k as usize] > 0,
            None => false,
        }
    }
}

/// State shared by every entity: the player's position, counters and flags.
#[derive(Debug)]
pub struct GameContext {
    /// Current position of the player.
    pub player: Point,
    /// Whether the player has died.
    pub dead: bool,
    /// Number of woken enemies still alive.
    pub enemies_remaining: usize,
    /// Number of turns the player has taken.
    pub global_time: u32,
    /// Keys collected, by kind.
    pub keys: Vec<u32>,
    /// Damage absorbed by ordinary enemies.
    pub dmg_dealt: u64,
    /// Whether the player has reached the exit.
    pub exit_reached: bool,
    /// Whether the player may walk through walls.
    pub no_clip: bool,
    /// Glyph drawn on a door once it is unlocked.
    pub door_glyph: Glyph,
}

/// A deferred change to the world.
#[derive(Debug)]
pub enum Cmd {
    /// Move the entity at `from` to `to`, if `to` is free.
    MoveTo { from: Point, to: Point },
    /// Apply damage (or healing) to the entity at `at`.
    Damage { at: Point, inst: DmgInst },
    /// Set whether the entity at `at` has acted.
    SetActed { at: Point, acted: bool },
    /// Set the forced velocity of the entity at `at`.
    SetVel { at: Point, vel: Option<Point> },
    /// Wake the entity at `at`, marking it as having acted.
    Wake { at: Point },
    /// Set the program cursor of the entity at `at`.
    SetCursor { at: Point, cursor: usize },
    /// Put a new entity at `at`, if the cell is free.
    Spawn { at: Point, en: En },
    /// Remove the entity at `at`.
    Delete { at: Point },
    /// Mark the tile at `at` as revealed.
    Reveal { at: Point },
    /// Unlock the tile at `at`, if its key has been collected.
    Unlock { at: Point },
    /// Show a visual effect at `at`.
    Effect { at: Point, vfx: Vfx },
    /// The player picks up the key of this kind lying at `at`, which becomes plain floor.
    CollectKey { at: Point, key: u32 },
    /// The player has reached the exit.
    ReachExit,
}

/// A grid of tiles, each holding at most one entity.
#[derive(Debug)]
pub struct World {
    pub width: usize,
    pub height: usize,
    /// Tiles in row-major order.
    pub tiles: Vec<Tile>,
    /// Entities in row-major order.
    pub ents: Vec<Option<En>>,
    /// Visual effects waiting to be drawn.
    pub effects: Vec<(Point, Vfx)>,
}

pub open spec fn in_grid(width: int, height: int, p: Point) -> bool {
    0 <= p.x < width && 0 <= p.y < height
}

pub open spec fn grid_idx(width: int, p: Point) -> int {
    p.y * width + p.x
}

pub(crate) proof fn lemma_grid_idx(width: int, height: int, p: Point)
    requires
        0 <= width,
        0 <= height,
        in_grid(width, height, p),
    ensures
        0 <= grid_idx(width, p) < width * height,
{
    assert(0 <= p.y * width + p.x < width * height) by (nonlinear_arith)
        requires
            0 <= p.x < width,
            0 <= p.y < height,
    ;
}

/// The hit points that a blow actually removes: no more than remain.
pub open spec fn absorbed(e: En, d: DmgType) -> int {
    match d {
        DmgType::Dmg(x) => if x > e.hp.value_spec() {
            e.hp.value_spec() as int
        } else {
            x as int
        },
        DmgType::Heal(_) => 0,
    }
}

/// Damage to ordinary enemies is what the damage counter records.
pub open spec fn counts_damage(e: En) -> bool {
    !e.is_player && e.special == Special::Not
}

/// `c1` equals `c0` except perhaps for the keys and the damage counter.
pub open spec fn ctx_same_but(c0: GameContext, c1: GameContext) -> bool {
    &&& c1.player == c0.player
    &&& c1.dead == c0.dead
    &&& c1.enemies_remaining == c0.enemies_remaining
    &&& c1.global_time == c0.global_time
    &&& c1.exit_reached == c0.exit_reached
    &&& c1.no_clip == c0.no_clip
    &&& c1.door_glyph == c0.door_glyph
}

/// `c1` equals `c0`.
pub open spec fn ctx_same(c0: GameContext, c1: GameContext) -> bool {
    &&& ctx_same_but(c0, c1)
    &&& c1.keys@ == c0.keys@
    &&& c1.dmg_dealt == c0.dmg_dealt
}

/// A command that a well-formed world can apply.
pub open spec fn cmd_wf(c: Cmd) -> bool {
    match c {
        Cmd::Spawn { at, en } => en.wf(),
        _ => true,
    }
}

/// `e2` is `e` with hit points changed as damage `d` changes them.
pub open spec fn damaged(e: En, d: DmgType, e2: En) -> bool {
    &&& e2.same_but_hp(e)
    &&& e2.hp.max_spec() == e.hp.max_spec()
    &&& e2.hp.cur_spec() == hp_after(e.hp, d).0
    &&& e2.wf()
}

/// What applying command `c` to world `w0` and context `c0` leaves: `w1` and `c1`.
pub open spec fn cmd_applied(w0: World, c0: GameContext, c: Cmd, w1: World, c1: GameContext) -> bool {
    &&& w1.width == w0.width
    &&& w1.height == w0.height
    &&& match c {
        Cmd::MoveTo { from, to } => {
            &&& w1.tiles@ == w0.tiles@
            &&& w1.effects@ == w0.effects@
            &&& ctx_same(c0, c1)
            &&& if w0.ent_at(from) is Some && w0.in_bounds(to) && w0.ent_at(to) is None {
                w1.ents@ == w0.ents@.update(w0.idx(from), None).update(w0.idx(to), w0.ent_at(from))
            } else {
                w1.ents@ == w0.ents@
            }
        },
        Cmd::Damage { at, inst } => {
            &&& w1.tiles@ == w0.tiles@
            &&& w1.effects@ == w0.effects@
            &&& ctx_same_but(c0, c1)
            &&& c1.keys@ == c0.keys@
            &&& match w0.ent_at(at) {
                Some(e) => {
                    &&& w1.ent_at(at) is Some
                    &&& damaged(e, inst.dmg, w1.ent_at(at)->Some_0)
                    &&& w1.ents@ == w0.ents@.update(w0.idx(at), w1.ent_at(at))
                    &&& c1.dmg_dealt == if counts_damage(e) {
                        if c0.dmg_dealt + absorbed(e, inst.dmg) > u64::MAX {
                            u64::MAX as int
                        } else {
                            c0.dmg_dealt + absorbed(e, inst.dmg)
                        }
                    } else {
                        c0.dmg_dealt as int
                    }
                },
                None => w1.ents@ == w0.ents@ && c1.dmg_dealt == c0.dmg_dealt,
            }
        },
        Cmd::SetActed { at, acted } => {
            &&& w1.tiles@ == w0.tiles@
            &&& w1.effects@ == w0.effects@
            &&& ctx_same(c0, c1)
            &&& w1.ents@ == match w0.ent_at(at) {
                Some(e) => w0.ents@.update(w0.idx(at), Some(En { acted, ..e })),
                None => w0.ents@,
            }
        },
        Cmd::SetVel { at, vel } => {
            &&& w1.tiles@ == w0.tiles@
            &&& w1.effects@ == w0.effects@
            &&& ctx_same(c0, c1)
            &&& w1.ents@ == match w0.ent_at(at) {
                Some(e) => w0.ents@.update(w0.idx(at), Some(En { vel, ..e })),
                None => w0.ents@,
            }
        },
        Cmd::Wake { at } => {
            &&& w1.tiles@ == w0.tiles@
            &&& w1.effects@ == w0.effects@
            &&& ctx_same(c0, c1)
            &&& w1.ents@ == match w0.ent_at(at) {
                Some(e) => w0.ents@.update(w0.idx(at), Some(En { dormant: false, acted: true, ..e })),
                None => w0.ents@,
            }
        },
        Cmd::SetCursor { at, cursor } => {
            &&& w1.tiles@ == w0.tiles@
            &&& w1.effects@ == w0.effects@
            &&& ctx_same(c0, c1)
            &&& w1.ents@ == match w0.ent_at(at) {
                Some(e) => w0.ents@.update(w0.idx(at), Some(En { cursor, ..e })),
                None => w0.ents@,
            }
        },
        Cmd::Spawn { at, en } => {
            &&& w1.tiles@ == w0.tiles@
            &&& w1.effects@ == w0.effects@
            &&& ctx_same(c0, c1)
            &&& w1.ents@ == if w0.in_bounds(at) && w0.ent_at(at) is None {
                w0.ents@.update(w0.idx(at), Some(en))
            } else {
                w0.ents@
            }
        },
        Cmd::Delete { at } => {
            &&& w1.tiles@ == w0.tiles@
            &&& w1.effects@ == w0.effects@
            &&& ctx_same(c0, c1)
            &&& w1.ents@ == if w0.in_bounds(at) {
                w0.ents@.update(w0.idx(at), None)
            } else {
                w0.ents@
            }
        },
        Cmd::Reveal { at } => {
            &&& w1.ents@ == w0.ents@
            &&& w1.effects@ == w0.effects@
            &&& ctx_same(c0, c1)
            &&& w1.tiles@ == match w0.tile_at(at) {
                Some(t) => w0.tiles@.update(w0.idx(at), Tile { revealed: true, ..t }),
                None => w0.tiles@,
            }
        },
        Cmd::Unlock { at } => {
            &&& w1.ents@ == w0.ents@
            &&& w1.effects@ == w0.effects@
            &&& ctx_same_but(c0, c1)
            &&& c1.dmg_dealt == c0.dmg_dealt
            &&& match w0.tile_at(at) {
                Some(t) => if t.unlockable_spec(c0.keys@) {
                    &&& w1.tiles@ == w0.tiles@.update(
                        w0.idx(at),
                        Tile { locked: None, blocking: false, ch: Some(c0.door_glyph), ..t },
                    )
                    &&& c1.keys@ == c0.keys@.update(
                        t.locked->Some_0 as int,
                        (c0.keys@[t.locked->Some_0 as int] - 1) as u32,
                    )
                } else {
                    w1.tiles@ == w0.tiles@ && c1.keys@ == c0.keys@
                },
                None => w1.tiles@ == w0.tiles@ && c1.keys@ == c0.keys@,
            }
        },
        Cmd::Effect { at, vfx } => {
            &&& w1.ents@ == w0.ents@
            &&& w1.tiles@ == w0.tiles@
            &&& w1.effects@ == w0.effects@.push((at, vfx))
            &&& ctx_same(c0, c1)
        },
        Cmd::CollectKey { at, key } => {
            &&& w1.ents@ == w0.ents@
            &&& w1.effects@ == w0.effects@
            &&& ctx_same_but(c0, c1)
            &&& c1.dmg_dealt == c0.dmg_dealt
            &&& w1.tiles@ == match w0.tile_at(at) {
                Some(t) => w0.tiles@.update(w0.idx(at), Tile { step_effect: None, ch: None, ..t }),
                None => w0.tiles@,
            }
            &&& c1.keys@ == if key < c0.keys@.len() && c0.keys@[key as int] < u32::MAX {
                c0.keys@.update(key as int, (c0.keys@[key as int] + 1) as u32)
            } else {
                c0.keys@
            }
        },
        Cmd::ReachExit => {
            &&& w1.ents@ == w0.ents@
            &&& w1.tiles@ == w0.tiles@
            &&& w1.effects@ == w0.effects@
            &&& c1.exit_reached
            &&& c1.player == c0.player
            &&& c1.dead == c0.dead
            &&& c1.enemies_remaining == c0.enemies_remaining
            &&& c1.global_time == c0.global_time
            &&& c1.no_clip == c0.no_clip
            &&& c1.door_glyph == c0.door_glyph
            &&& c1.keys@ == c0.keys@
            &&& c1.dmg_dealt == c0.dmg_dealt
        },
    }
}

/// Applying damage to an entity: a blow of at least its remaining hit points
/// leaves them reading zero, and the damage counter grows by the hit points
/// the blow actually removed (short of overflow) when the entity is an
/// ordinary enemy, and not at all for the player or a sentry.
pub proof fn lemma_damage_counted(
    w0: World,
    c0: GameContext,
    w1: World,
    c1: GameContext,
    at: Point,
    inst: DmgInst,
)
    requires
        cmd_applied(w0, c0, Cmd::Damage { at, inst }, w1, c1),
        w0.ent_at(at) is Some,
        inst.dmg is Dmg,
    ensures
        ({
            let e = w0.ent_at(at)->Some_0;
            let d = inst.dmg->Dmg_0;
            let taken: int = if d >= e.hp.value_spec() {
                e.hp.value_spec() as int
            } else {
                d as int
            };
            &&& counts_damage(e) && c0.dmg_dealt + taken <= u64::MAX ==> c1.dmg_dealt == c0.dmg_dealt + taken
            &&& !counts_damage(e) ==> c1.dmg_dealt == c0.dmg_dealt
            &&& d >= e.hp.value_spec() ==> w1.ent_at(at)->Some_0.hp.value_spec() == 0
        }),
{
}

/// `ws` and `cs` record the worlds and contexts that applying the commands
/// of `q` in order passes through, starting from `w0` and `c0`.
pub open spec fn trace_ok(w0: World, c0: GameContext, q: Seq<Cmd>, ws: Seq<World>, cs: Seq<GameContext>) -> bool {
    &&& ws.len() == q.len() + 1
    &&& cs.len() == q.len() + 1
    &&& ws[0] == w0
    &&& cs[0] == c0
    &&& forall|i: int|
        0 <= i < q.len() ==> #[trigger] cmd_applied(ws[i], cs[i], q[i], ws[i + 1], cs[i + 1])
}

/// Applying the commands of `q` in order takes `(w0, c0)` to `(w1, c1)`.
pub open spec fn queue_applied(w0: World, c0: GameContext, q: Seq<Cmd>, w1: World, c1: GameContext) -> bool {
    exists|ws: Seq<World>, cs: Seq<GameContext>|
        #[trigger] trace_ok(w0, c0, q, ws, cs) && ws.last() == w1 && cs.last() == c1
}

impl World {
    pub open spec fn wf(&self) -> bool {
        &&& self.width <= GRID_MAX
        &&& self.height <= GRID_MAX
        &&& self.width * self.height <= usize::MAX
        &&& self.tiles@.len() == self.width * self.height
        &&& self.ents@.len() == self.width * self.height
        &&& forall|i: int|
            0 <= i < self.ents@.len() && (#[trigger] self.ents@[i]) is Some ==> self.ents@[i]->Some_0.wf()
    }

    pub open spec fn in_bounds(&self, p: Point) -> bool {
        in_grid(self.width as int, self.height as int, p)
    }

    pub open spec fn idx(&self, p: Point) -> int {
        grid_idx(self.width as int, p)
    }

    /// The tile at `p`, if `p` is on the grid.
    pub open spec fn tile_at(&self, p: Point) -> Option<Tile> {
        if self.in_bounds(p) {
            Some(self.tiles@[self.idx(p)])
        } else {
            None
        }
    }

    /// The entity at `p`, if there is one.
    pub open spec fn ent_at(&self, p: Point) -> Option<En> {
        if self.in_bounds(p) {
            self.ents@[self.idx(p)]
        } else {
            None
        }
    }

    /// A cell an entity may enter: a non-blocking tile with no entity on it.
    pub open spec fn free_spec(&self, p: Point) -> bool {
        &&& self.tile_at(p) is Some
        &&& !self.tile_at(p)->Some_0.blocking
        &&& self.ent_at(p) is None
    }

    /// A world of `width` by `height` empty tiles and no entities.
    pub fn new(width: usize, height: usize) -> (r: World)
        requires
            width <= GRID_MAX,
            height <= GRID_MAX,
            width * height <= usize::MAX,
        ensures
            r.wf(),
            r.width == width,
            r.height == height,
            forall|p: Point| r.in_bounds(p) ==> r.tile_at(p) == Some(Tile::empty_spec()),
            forall|p: Point| #[trigger] r.ent_at(p) == None::<En>,
            r.effects@.len() == 0,
    {
        let n = width * height;
        let mut tiles: Vec<Tile> = Vec::new();
        let mut ents: Vec<Option<En>> = Vec::new();
        let mut i: usize = 0;
        while i < n
            invariant
                i <= n,
                tiles@.len() == i,
                ents@.len() == i,
                forall|k: int| 0 <= k < i ==> tiles@[k] == Tile::empty_spec(),
                forall|k: int| 0 <= k < i ==> ents@[k] == None::<En>,
            decreases n - i,
        {
            tiles.push(Tile::empty());
            ents.push(None);
            i = i + 1;
        }
        let r = World { width, height, tiles, ents, effects: Vec::new() };
        assert forall|p: Point| r.in_bounds(p) implies r.tile_at(p) == Some(Tile::empty_spec()) by {
            lemma_grid_idx(width as int, height as int, p);
        }
        assert forall|p: Point| #[trigger] r.ent_at(p) == None::<En> by {
            if r.in_bounds(p) {
                lemma_grid_idx(width as int, height as int, p);
            }
        }
        r
    }

    /// The index of `p` in the row-major vectors, if it is on the grid.
    pub fn index_of(&self, p: Point) -> (r: Option<usize>)
        requires
            self.wf(),
        ensures
            r is Some <==> self.in_bounds(p),
            r is Some ==> r->Some_0 == self.idx(p) && r->Some_0 < self.tiles@.len(),
    {
        if p.x < 0 || p.y < 0 || p.x as usize >= self.width || p.y as usize >= self.height {
            None
        } else {
            proof {
                lemma_grid_idx(self.width as int, self.height as int, p);
            }
            assert((p.y as usize) * self.width + (p.x as usize) < self.width * self.height) by (nonlinear_arith)
                requires
                    p.y < self.height,
                    0 <= p.y,
                    0 <= p.x < self.width,
            ;
            Some((p.y as usize) * self.width + p.x as usize)
        }
    }

    /// The tile at `p`, if `p` is on the grid.
    pub fn get_tile(&self, p: Point) -> (r: Option<Tile>)
        requires
            self.wf(),
        ensures
            r == self.tile_at(p),
    {
        match self.index_of(p) {
            Some(i) => Some(self.tiles[i]),
            None => None,
        }
    }

    /// The entity at `p`, if there is one.
    pub fn get_ent(&self, p: Point) -> (r: Option<&En>)
        requires
            self.wf(),
        ensures
            r is Some <==> self.ent_at(p) is Some,
            r is Some ==> *r->Some_0 == self.ent_at(p)->Some_0,
    {
        match self.index_of(p) {
            Some(i) => self.ents[i].as_ref(),
            None => None,
        }
    }

    /// Whether an entity may enter `p`: a non-blocking tile with no entity.
    pub fn is_free(&self, p: Point) -> (r: bool)
        requires
            self.wf(),
        ensures
            r == self.free_spec(p),
    {
        match self.get_tile(p) {
            Some(t) => !t.blocking && self.get_ent(p).is_none(),
            None => false,
        }
    }

    /// Sets the tile at `p`.
    pub fn set_tile(&mut self, p: Point, t: Tile)
        requires
            old(self).wf(),
        ensures
            final(self).wf(),
            final(self).width == old(self).width,
            final(self).height == old(self).height,
            final(self).ents@ == old(self).ents@,
            final(self).effects@ == old(self).effects@,
            old(self).in_bounds(p) ==> final(self).tiles@ == old(self).tiles@.update(
                old(self).idx(p),
                t,
            ),
            !old(self).in_bounds(p) ==> final(self).tiles@ == old(self).tiles@,
    {
        if let Some(i) = self.index_of(p) {
            self.tiles.set(i, t);
        }
    }

    /// Takes the entity at index `i` out of the grid.
    fn take_ent(&mut self, i: usize) -> (r: Option<En>)
        requires
            old(self).wf(),
            i < old(self).ents@.len(),
        ensures
            r == old(self).ents@[i as int],
            final(self).ents@ == old(self).ents@.update(i as int, None),
            final(self).tiles@ == old(self).tiles@,
            final(self).effects@ == old(self).effects@,
            final(self).width == old(self).width,
            final(self).height == old(self).height,
            final(self).wf(),
            r is Some ==> r->Some_0.wf(),
            r is None ==> final(self).ents@ == old(self).ents@,
    {
        let mut slot: Option<En> = None;
        self.ents.set_and_swap(i, &mut slot);
        assert(slot is None ==> self.ents@ =~= old(self).ents@);
        slot
    }

    /// Applies one command.
    pub fn apply_cmd(&mut self, ctx: &mut GameContext, c: Cmd)
        requires
            old(self).wf(),
            cmd_wf(c),
        ensures
            final(self).wf(),
            cmd_applied(*old(self), *old(ctx), c, *final(self), *final(ctx)),
    {
        match c {
            Cmd::MoveTo { from, to } => self.apply_move(from, to),
            Cmd::Damage { at, inst } => self.apply_damage(ctx, at, inst),
            Cmd::SetActed { at, acted } => self.apply_set_acted(at, acted),
            Cmd::SetVel { at, vel } => self.apply_set_vel(at, vel),
            Cmd::Wake { at } => self.apply_wake(at),
            Cmd::SetCursor { at, cursor } => self.apply_set_cursor(at, cursor),
            Cmd::Spawn { at, en } => self.insert_ent(at, en),
            Cmd::Delete { at } => {
                if let Some(i) = self.index_of(at) {
                    let _ = self.take_ent(i);
                }
            },
            Cmd::Reveal { at } => {
                if let Some(i) = self.index_of(at) {
                    let mut t = self.tiles[i];
                    t.revealed = true;
                    self.tiles.set(i, t);
                }
            },
            Cmd::Unlock { at } => self.apply_unlock(ctx, at),
            Cmd::Effect { at, vfx } => {
                self.effects.push((at, vfx));
            },
            Cmd::CollectKey { at, key } => self.apply_collect_key(ctx, at, key),
            Cmd::ReachExit => {
                ctx.exit_reached = true;
            },
        }
    }

    fn apply_move(&mut self, from: Point, to: Point)
        requires
            old(self).wf(),
        ensures
            final(self).wf(),
            final(self).width == old(self).width,
            final(self).height == old(self).height,
            final(self).tiles@ == old(self).tiles@,
            final(self).effects@ == old(self).effects@,
            if old(self).ent_at(from) is Some && old(self).in_bounds(to) && old(self).ent_at(to) is None {
                final(self).ents@ == old(self).ents@.update(old(self).idx(from), None).update(old(self).idx(to), old(self).ent_at(from))
            } else {
                final(self).ents@ == old(self).ents@
            },
    {
        if let Some(i) = self.index_of(from) {
            if let Some(j) = self.index_of(to) {
                if self.ents[i].is_some() && self.ents[j].is_none() {
                    let e = self.take_ent(i);
                    self.ents.set(j, e);
                }
            }
        }
    }

    fn apply_damage(&mut self, ctx: &mut GameContext, at: Point, inst: DmgInst)
        requires
            old(self).wf(),
        ensures
            final(self).wf(),
            cmd_applied(*old(self), *old(ctx), Cmd::Damage { at, inst }, *final(self), *final(ctx)),
    {
        if let Some(i) = self.index_of(at) {
            if let Some(mut e) = self.take_ent(i) {
                let counted = !e.is_player && e.special == Special::Not;
                let before = e.hp.value();
                e.apply_dmg(inst);
                if counted {
                    if let DmgType::Dmg(d) = inst.dmg {
                        let taken: u64 = if d > before {
                            before as u64
                        } else {
                            d as u64
                        };
                        ctx.dmg_dealt = ctx.dmg_dealt.saturating_add(taken);
                    }
                }
                assert(self.ents@.update(i as int, Some(e)) =~= old(self).ents@.update(i as int, Some(e)));
                self.ents.set(i, Some(e));
            }
        }
    }

    fn apply_set_acted(&mut self, at: Point, acted: bool)
        requires
            old(self).wf(),
        ensures
            final(self).wf(),
            final(self).width == old(self).width,
            final(self).height == old(self).height,
            final(self).tiles@ == old(self).tiles@,
            final(self).effects@ == old(self).effects@,
            final(self).ents@ == match old(self).ent_at(at) {
                Some(e) => old(self).ents@.update(old(self).idx(at), Some(En { acted, ..e })),
                None => old(self).ents@,
            },
    {
        if let Some(i) = self.index_of(at) {
            if let Some(mut e) = self.take_ent(i) {
                e.acted = acted;
                assert(self.ents@.update(i as int, Some(e)) =~= old(self).ents@.update(i as int, Some(e)));
                self.ents.set(i, Some(e));
            }
        }
    }

    fn apply_set_vel(&mut self, at: Point, vel: Option<Point>)
        requires
            old(self).wf(),
        ensures
            final(self).wf(),
            final(self).width == old(self).width,
            final(self).height == old(self).height,
            final(self).tiles@ == old(self).tiles@,
            final(self).effects@ == old(self).effects@,
            final(self).ents@ == match old(self).ent_at(at) {
                Some(e) => old(self).ents@.update(old(self).idx(at), Some(En { vel, ..e })),
                None => old(self).ents@,
            },
    {
        if let Some(i) = self.index_of(at) {
            if let Some(mut e) = self.take_ent(i) {
                e.vel = vel;
                assert(self.ents@.update(i as int, Some(e)) =~= old(self).ents@.update(i as int, Some(e)));
                self.ents.set(i, Some(e));
            }
        }
    }

    fn apply_wake(&mut self, at: Point)
        requires
            old(self).wf(),
        ensures
            final(self).wf(),
            final(self).width == old(self).width,
            final(self).height == old(self).height,
            final(self).tiles@ == old(self).tiles@,
            final(self).effects@ == old(self).effects@,
            final(self).ents@ == match old(self).ent_at(at) {
                Some(e) => old(self).ents@.update(old(self).idx(at), Some(En { dormant: false, acted: true, ..e })),
                None => old(self).ents@,
            },
    {
        if let Some(i) = self.index_of(at) {
            if let Some(mut e) = self.take_ent(i) {
                e.dormant = false;
                e.acted = true;
                assert(self.ents@.update(i as int, Some(e)) =~= old(self).ents@.update(i as int, Some(e)));
                self.ents.set(i, Some(e));
            }
        }
    }

    fn apply_set_cursor(&mut self, at: Point, cursor: usize)
        requires
            old(self).wf(),
        ensures
            final(self).wf(),
            final(self).width == old(self).width,
            final(self).height == old(self).height,
            final(self).tiles@ == old(self).tiles@,
            final(self).effects@ == old(self).effects@,
            final(self).ents@ == match old(self).ent_at(at) {
                Some(e) => old(self).ents@.update(old(self).idx(at), Some(En { cursor, ..e })),
                None => old(self).ents@,
            },
    {
        if let Some(i) = self.index_of(at) {
            if let Some(mut e) = self.take_ent(i) {
                e.cursor = cursor;
                assert(self.ents@.update(i as int, Some(e)) =~= old(self).ents@.update(i as int, Some(e)));
                self.ents.set(i, Some(e));
            }
        }
    }

    fn apply_unlock(&mut self, ctx: &mut GameContext, at: Point)
        requires
            old(self).wf(),
        ensures
            final(self).wf(),
            cmd_applied(*old(self), *old(ctx), Cmd::Unlock { at }, *final(self), *final(ctx)),
    {
        if let Some(i) = self.index_of(at) {
            let mut t = self.tiles[i];
            if t.unlockable(&ctx.keys) {
                let k = t.locked.unwrap() as usize;
                t.locked = None;
                t.blocking = false;
                t.ch = Some(ctx.door_glyph);
                self.tiles.set(i, t);
                let n = ctx.keys[k];
                ctx.keys.set(k, n - 1);
            }
        }
    }

    fn apply_collect_key(&mut self, ctx: &mut GameContext, at: Point, key: u32)
        requires
            old(self).wf(),
        ensures
            final(self).wf(),
            cmd_applied(*old(self), *old(ctx), Cmd::CollectKey { at, key }, *final(self), *final(ctx)),
    {
        if let Some(i) = self.index_of(at) {
            let mut t = self.tiles[i];
            t.step_effect = None;
            t.ch = None;
            self.tiles.set(i, t);
        }
        let k = key as usize;
        if k < ctx.keys.len() && ctx.keys[k] < u32::MAX {
            let n = ctx.keys[k];
            ctx.keys.set(k, n + 1);
        }
    }

    /// Applies the commands of `q` in order.
    pub fn apply_queue(&mut self, ctx: &mut GameContext, q: Vec<Cmd>)
        requires
            old(self).wf(),
            forall|k: int| 0 <= k < q@.len() ==> cmd_wf(#[trigger] q@[k]),
        ensures
            final(self).wf(),
            final(self).width == old(self).width,
            final(self).height == old(self).height,
            queue_applied(*old(self), *old(ctx), q@, *final(self), *final(ctx)),
    {
        let ghost w0 = *self;
        let ghost c0 = *ctx;
        let ghost qs = q@;
        let ghost mut ws: Seq<World> = seq![w0];
        let ghost mut cs: Seq<GameContext> = seq![c0];
        let mut q = q;
        let n = q.len();
        let mut done: usize = 0;
        while q.len() > 0
            invariant
                self.wf(),
                n == qs.len(),
                q@.len() + done == qs.len(),
                q@ == qs.skip(done as int),
                forall|k: int| 0 <= k < qs.len() ==> cmd_wf(#[trigger] qs[k]),
                trace_ok(w0, c0, qs.take(done as int), ws, cs),
                ws.last() == *self,
                cs.last() == *ctx,
                self.width == w0.width,
                self.height == w0.height,
            decreases q@.len(),
        {
            let c = q.remove(0);
            let ghost cg = c;
            assert(c == qs[done as int]);
            self.apply_cmd(ctx, c);
            proof {
                let ws0 = ws;
                let cs0 = cs;
                ws = ws.push(*self);
                cs = cs.push(*ctx);
                let q2 = qs.take(done as int + 1);
                assert forall|i: int| 0 <= i < q2.len() implies #[trigger] cmd_applied(ws[i], cs[i], q2[i], ws[i + 1], cs[i + 1]) by {
                    if i < done {
                        assert(q2[i] == qs.take(done as int)[i]);
                        assert(cmd_applied(ws0[i], cs0[i], qs.take(done as int)[i], ws0[i + 1], cs0[i + 1]));
                    } else {
                        assert(q2[i] == cg);
                    }
                }
            }
            done = done + 1;
            assert(q@ =~= qs.skip(done as int));
        }
        assert(qs.take(done as int) =~= qs);
        assert(trace_ok(w0, c0, qs, ws, cs));
    }

    /// Puts `e` at `p`, if `p` is on the grid and holds no entity.
    pub fn insert_ent(&mut self, p: Point, e: En)
        requires
            old(self).wf(),
            e.wf(),
        ensures
            final(self).wf(),
            final(self).width == old(self).width,
            final(self).height == old(self).height,
            final(self).tiles@ == old(self).tiles@,
            final(self).effects@ == old(self).effects@,
            old(self).in_bounds(p) && old(self).ent_at(p) is None ==> final(self).ents@
                == old(self).ents@.update(old(self).idx(p), Some(e)),
            !(old(self).in_bounds(p) && old(self).ent_at(p) is None) ==> final(self).ents@
                == old(self).ents@,
    {
        if let Some(i) = self.index_of(p) {
            if self.ents[i].is_none() {
                self.ents.set(i, Some(e));
            }
        }
    }
}

} // verus!
