//! The action-resolution engine: turns an entity's current action into
//! deferred commands and reports whether the turn was taken.

use vstd::prelude::*;
use crate::attacks::{Effect, OtherEffect};
use crate::damage::{DmgInst, roll};
use crate::entity::{ActionType, Cond, En, Script};
use crate::path::{PATH_DEPTH, PathStep, find_first_step, legal_step, no_path, shortest_first_step};
use crate::point::{Point, line_point, line_steps, plot_line};
use crate::world::{Cmd, GameContext, World, cmd_wf};

verus! {

/// Most nested jumps that one resolution follows.
pub const MAX_JUMPS: usize = 16;

/// What resolving an action reports: where the entity ends up, whether it
/// took its turn, and the program cursor that a jump chose, if any.
#[derive(Clone, Copy, Debug, PartialEq, Eq, Structural)]
pub struct Outcome {
    pub pos: Point,
    pub acted: bool,
    pub cursor: Option<usize>,
}

/// Names an outcome; used to pick witnesses in the semantics below.
pub open spec fn witness(o: Outcome) -> Outcome {
    o
}

/// `e` is an opponent of `en`: awake and on the other side.
pub open spec fn opponent(en: En, e: En) -> bool {
    !e.dormant && e.is_player != en.is_player
}

/// Some place of the `j`th attack in the `i`th direction of `en`, made from
/// `pos`, holds an opponent.
pub open spec fn strikes(w: World, en: En, pos: Point, i: int, j: int) -> bool {
    &&& 0 <= i < en.atks.melee_atks@.len()
    &&& 0 <= j < en.atks.atks_of(i).len()
    &&& exists|k: int|
        0 <= k < en.atks.atks_of(i)[j].place@.len() && {
            let t = pos.plus(#[trigger] en.atks.atks_of(i)[j].place@[k]);
            w.ent_at(t) is Some && opponent(en, w.ent_at(t)->Some_0)
        }
}

/// Some attack bound to direction `d` strikes an opponent from `pos`.
pub open spec fn dir_strikes(w: World, en: En, pos: Point, d: Point) -> bool {
    exists|i: int, j: int| en.atks.melee_atks@[i].0 == d && #[trigger] strikes(w, en, pos, i, j)
}

/// Some attack strikes an opponent from `pos`.
pub open spec fn any_strike(w: World, en: En, pos: Point) -> bool {
    exists|i: int, j: int| #[trigger] strikes(w, en, pos, i, j)
}

/// `en` may enter the tile at `p`: it is passable, or locked with its key
/// collected, or the player walks through walls.
pub open spec fn enterable(w: World, ctx: GameContext, en: En, p: Point) -> bool {
    &&& w.tile_at(p) is Some
    &&& {
        let t = w.tile_at(p)->Some_0;
        !t.blocking || t.unlockable_spec(ctx.keys@) || (ctx.no_clip && en.is_player)
    }
}

/// Every cell strictly between `a` and `b` on the line from one to the other is free.
pub open spec fn line_clear(w: World, a: Point, b: Point) -> bool {
    forall|i: int| 0 < i < line_steps(a, b) ==> w.free_spec(#[trigger] line_point(a, b, i))
}

/// `t` holds an opponent of `en` that a ranged attack of range `range` can
/// hit from `pos`: within range and with a clear line.
pub open spec fn fire_target(w: World, en: En, pos: Point, range: u32, t: Point) -> bool {
    &&& t != pos
    &&& w.ent_at(t) is Some
    &&& opponent(en, w.ent_at(t)->Some_0)
    &&& pos.dist_squared_spec(t) <= range * range
    &&& line_clear(w, pos, t)
}

/// The outcome of `TryMove(d)` from `pos`.
pub open spec fn move_outcome(w: World, ctx: GameContext, en: En, pos: Point, d: Point) -> Outcome {
    let stay = Outcome { pos, acted: false, cursor: None };
    if !pos.can_add(d) {
        stay
    } else if dir_strikes(w, en, pos, d) {
        Outcome { pos, acted: true, cursor: None }
    } else {
        let dest = pos.plus(d);
        if enterable(w, ctx, en, dest) && (w.ent_at(dest) is None || ctx.enemies_remaining == 0) {
            let t = w.tile_at(dest)->Some_0;
            if t.blocking && t.unlockable_spec(ctx.keys@) {
                Outcome { pos, acted: true, cursor: None }
            } else {
                Outcome { pos: dest, acted: true, cursor: None }
            }
        } else {
            stay
        }
    }
}

/// The outcome of `TryMelee` from `pos`: the player attacks any opponent in
/// reach, others attack the player.
pub open spec fn melee_outcome(w: World, ctx: GameContext, en: En, pos: Point) -> Outcome {
    Outcome {
        pos,
        acted: if en.is_player {
            any_strike(w, en, pos)
        } else {
            en.atks.any_hit(pos, ctx.player)
        },
        cursor: None,
    }
}

/// Whether a branch condition holds.
pub open spec fn cond_holds(ctx: GameContext, en: En, pos: Point, c: Cond) -> bool {
    match c {
        Cond::PlayerWithin(r) => pos.dist_squared_spec(ctx.player) <= r,
        Cond::HpAtMost(h) => en.hp.value_spec() <= h,
    }
}

/// The outcome of a script.
pub open spec fn script_outcome(w: World, pos: Point, s: Script) -> Outcome {
    match s {
        Script::Blink(d) => Outcome {
            pos: if pos.can_add(d) && w.free_spec(pos.plus(d)) {
                pos.plus(d)
            } else {
                pos
            },
            acted: true,
            cursor: None,
        },
        Script::HealSelf(_) => Outcome { pos, acted: true, cursor: None },
    }
}

/// The cursor after the action at `idx` of a program of `len` actions.
pub open spec fn next_cursor(idx: int, len: int) -> usize {
    if idx + 1 >= len {
        0
    } else {
        (idx + 1) as usize
    }
}

/// The outcome of a jump to `idx` whose target resolved to `o`: the cursor
/// that the target chose, or else the one after the target.
pub open spec fn jumped(o: Outcome, idx: int, len: int) -> Outcome {
    Outcome {
        cursor: Some(
            match o.cursor {
                Some(c) => c,
                None => next_cursor(idx, len),
            },
        ),
        ..o
    }
}

/// Where `Pathfind` leaves an entity at `pos`: one step along a shortest path
/// of at most [`PATH_DEPTH`] steps to a cell from which some melee attack
/// reaches the player, unless that step is the player's cell (or its own);
/// it stays when already on such a cell, when there is no such path, or off
/// the grid.
pub open spec fn pathfind_move(w: World, ctx: GameContext, en: En, pos: Point, to: Point) -> bool {
    let goals = crate::attacks::dirs_minus(ctx.player, en.atks.melee_atks@);
    let moves = en.movement@;
    if !w.in_bounds(pos) || !ctx.player.bounded() {
        to == pos
    } else if to != pos {
        to != ctx.player && shortest_first_step(w, pos, goals, moves, PATH_DEPTH as int, to)
    } else {
        goals.contains(pos) || no_path(w, pos, goals, moves, PATH_DEPTH as int)
            || shortest_first_step(w, pos, goals, moves, PATH_DEPTH as int, ctx.player)
            || shortest_first_step(w, pos, goals, moves, PATH_DEPTH as int, pos)
    }
}

/// `c` is the blow of `inst` landing on `target`, or the miss shown there.
pub open spec fn blow_at(c: Cmd, target: Point, inst: DmgInst) -> bool {
    c == (Cmd::Damage { at: target, inst }) || (c is Effect && c->Effect_at == target)
}

/// `cmds` hold, for every place of the `j`th attack of the `i`th direction of
/// `en` made from `pos` and every damaging effect of it, the blow landing on
/// that place or the miss shown there (whichever the roll chose).
pub open spec fn attack_queued(en: En, pos: Point, i: int, j: int, cmds: Seq<Cmd>) -> bool {
    forall|k: int, e: int|
        #![trigger en.atks.atks_of(i)[j].place@[k], en.atks.atks_of(i)[j].effects@[e]]
        0 <= k < en.atks.atks_of(i)[j].place@.len() && 0 <= e < en.atks.atks_of(i)[j].effects@.len()
            && pos.plus(en.atks.atks_of(i)[j].place@[k]).bounded() && en.atks.atks_of(i)[j].effects@[e] is DoDmg
            ==> exists|m: int|
            0 <= m < cmds.len() && blow_at(
                #[trigger] cmds[m],
                pos.plus(en.atks.atks_of(i)[j].place@[k]),
                en.atks.atks_of(i)[j].effects@[e]->DoDmg_0,
            )
}

/// Names an outcome with the commands that produced it; used to pick
/// witnesses in the semantics below.
pub open spec fn step(o: Outcome, c: Seq<Cmd>) -> (Outcome, Seq<Cmd>) {
    (o, c)
}

/// Names two outcomes' commands for a multi-action.
pub open spec fn step3(o: Outcome, ca: Seq<Cmd>, cb: Seq<Cmd>) -> (Outcome, Seq<Cmd>, Seq<Cmd>) {
    (o, ca, cb)
}

/// `out` is a possible outcome of resolving `action` for `en` at `pos` in
/// world `w` and context `ctx`, following at most `fuel` nested jumps, and
/// `cmds` the commands it queues. An action that does not take the turn
/// queues nothing; combinators queue their parts' commands in order.
pub open spec fn resolves(
    w: World,
    ctx: GameContext,
    en: En,
    action: ActionType,
    pos: Point,
    fuel: nat,
    out: Outcome,
    cmds: Seq<Cmd>,
) -> bool
    decreases fuel, action,
{
    match action {
        ActionType::Wait => out == Outcome { pos, acted: true, cursor: None } && cmds.len() == 0,
        ActionType::TryMove(d) => {
            &&& out == move_outcome(w, ctx, en, pos, d)
            &&& !out.acted ==> cmds.len() == 0
            &&& pos.can_add(d) && dir_strikes(w, en, pos, d) ==> exists|i: int, j: int|
                #[trigger] attack_queued(en, pos, i, j, cmds) && en.atks.melee_atks@[i].0 == d && strikes(w, en, pos, i, j)
        },
        ActionType::TryMelee => {
            &&& out == melee_outcome(w, ctx, en, pos)
            &&& !out.acted ==> cmds.len() == 0
            &&& out.acted ==> exists|i: int, j: int|
                #[trigger] attack_queued(en, pos, i, j, cmds) && if en.is_player {
                    strikes(w, en, pos, i, j)
                } else {
                    en.atks.hit_at(i, j, pos, ctx.player)
                }
        },
        ActionType::ForceMelee(d, n) => {
            &&& out == Outcome { pos, acted: true, cursor: None }
            &&& forall|i: int|
                0 <= i < en.atks.melee_atks@.len() && (#[trigger] en.atks.melee_atks@[i]).0 == d && n < en.atks.atks_of(i).len()
                    ==> attack_queued(en, pos, i, n as int, cmds)
        },
        ActionType::Fire(idx) => {
            &&& out.pos == pos
            &&& out.cursor is None
            &&& out.acted <==> idx < en.atks.ranged_atks@.len() && exists|t: Point|
                #[trigger] fire_target(w, en, pos, en.atks.ranged_atks@[idx as int].range, t)
            &&& !out.acted ==> cmds.len() == 0
        },
        ActionType::Pathfind => {
            &&& out.acted
            &&& out.cursor is None
            &&& pathfind_move(w, ctx, en, pos, out.pos)
        },
        ActionType::Multi(a, b) => exists|oa: Outcome, ca: Seq<Cmd>, cb: Seq<Cmd>|
            #[trigger] step3(oa, ca, cb) == (oa, ca, cb) && resolves(w, ctx, en, *a, pos, fuel, oa, ca)
                && resolves(w, ctx, en, *b, oa.pos, fuel, out, cb) && cmds == ca + cb,
        ActionType::Chain(a, b) => exists|oa: Outcome, ca: Seq<Cmd>|
            #[trigger] step(oa, ca) == (oa, ca) && resolves(w, ctx, en, *a, pos, fuel, oa, ca) && if oa.acted {
                out == oa && cmds == ca
            } else {
                exists|ob: Outcome, cb: Seq<Cmd>|
                    #[trigger] step(ob, cb) == (ob, cb) && resolves(w, ctx, en, *b, oa.pos, fuel, ob, cb)
                        && out == (Outcome { acted: true, ..ob }) && cmds == ca + cb
            },
        ActionType::Jump(_) | ActionType::CondBranch(_, _, _) => {
            let idx: int = match action {
                ActionType::Jump(i) => i as int,
                ActionType::CondBranch(t, f, c) => if cond_holds(ctx, en, pos, c) {
                    t as int
                } else {
                    f as int
                },
                _ => 0,
            };
            if fuel == 0 || idx >= en.actions@.len() {
                out == Outcome { pos, acted: false, cursor: None } && cmds.len() == 0
            } else {
                exists|o: Outcome, c: Seq<Cmd>|
                    #[trigger] step(o, c) == (o, c) && resolves(
                        w,
                        ctx,
                        en,
                        en.actions@[idx],
                        pos,
                        (fuel - 1) as nat,
                        o,
                        c,
                    ) && out == jumped(o, idx, en.actions@.len() as int) && cmds == c
            }
        },
        ActionType::Arbitrary(s) => out == script_outcome(w, pos, s) && (s is Blink ==> cmds.len() == 0),
    }
}

/// A chain takes the turn. When its first action takes the turn, the chain's
/// outcome and commands are the first action's, and the fallback queues
/// nothing; otherwise the fallback runs from where the first action left the
/// entity, its commands follow the first action's, and its position and
/// cursor are the chain's.
pub proof fn lemma_chain(
    w: World,
    ctx: GameContext,
    en: En,
    a: ActionType,
    b: ActionType,
    pos: Point,
    fuel: nat,
    out: Outcome,
    cmds: Seq<Cmd>,
)
    requires
        resolves(w, ctx, en, ActionType::Chain(Box::new(a), Box::new(b)), pos, fuel, out, cmds),
    ensures
        out.acted,
        exists|oa: Outcome, ca: Seq<Cmd>|
            #[trigger] step(oa, ca) == (oa, ca) && resolves(w, ctx, en, a, pos, fuel, oa, ca) && (oa.acted
                ==> out == oa && cmds == ca) && (!oa.acted ==> exists|ob: Outcome, cb: Seq<Cmd>|
                #[trigger] step(ob, cb) == (ob, cb) && resolves(w, ctx, en, b, oa.pos, fuel, ob, cb)
                    && out.pos == ob.pos && out.cursor == ob.cursor && cmds == ca + cb),
{
}

/// A multi-action runs both of its actions, the second from where the first
/// left the entity, and queues the first one's commands then the second's;
/// its outcome, and so whether the turn is taken and the cursor, is an
/// outcome of the second action.
pub proof fn lemma_multi(
    w: World,
    ctx: GameContext,
    en: En,
    a: ActionType,
    b: ActionType,
    pos: Point,
    fuel: nat,
    out: Outcome,
    cmds: Seq<Cmd>,
)
    requires
        resolves(w, ctx, en, ActionType::Multi(Box::new(a), Box::new(b)), pos, fuel, out, cmds),
    ensures
        exists|oa: Outcome, ca: Seq<Cmd>, cb: Seq<Cmd>|
            #[trigger] step3(oa, ca, cb) == (oa, ca, cb) && resolves(w, ctx, en, a, pos, fuel, oa, ca)
                && resolves(w, ctx, en, b, oa.pos, fuel, out, cb) && cmds == ca + cb,
{
}

/// Every command of `q` can be applied.
pub open spec fn all_cmds_wf(q: Seq<Cmd>) -> bool {
    forall|k: int| 0 <= k < q.len() ==> cmd_wf(#[trigger] q[k])
}

/// `q1` is `q0` with well-formed commands appended.
pub open spec fn appended(q0: Seq<Cmd>, q1: Seq<Cmd>) -> bool {
    &&& q1.len() >= q0.len()
    &&& q1.take(q0.len() as int) == q0
    &&& all_cmds_wf(q0) ==> all_cmds_wf(q1)
}

pub(crate) proof fn lemma_appended_refl(q: Seq<Cmd>)
    ensures
        appended(q, q),
{
    assert(q.take(q.len() as int) =~= q);
}

pub(crate) proof fn lemma_skip_concat(a: Seq<Cmd>, b: Seq<Cmd>, c: Seq<Cmd>)
    requires
        appended(a, b),
        appended(b, c),
    ensures
        c.skip(a.len() as int) == b.skip(a.len() as int) + c.skip(b.len() as int),
{
    assert forall|k: int| 0 <= k < b.len() implies c[k] == b[k] by {
        assert(c.take(b.len() as int)[k] == c[k]);
    }
    assert(c.skip(a.len() as int) =~= b.skip(a.len() as int) + c.skip(b.len() as int));
}

/// A blow recorded in the new part of `a` stays recorded as `a` grows to `b`.
proof fn lemma_blows_kept(a: Seq<Cmd>, b: Seq<Cmd>, base: int)
    requires
        appended(a, b),
        0 <= base <= a.len(),
    ensures
        forall|m: int| 0 <= m < a.skip(base).len() ==> #[trigger] b.skip(base)[m] == a.skip(base)[m],
        b.skip(base).len() >= a.skip(base).len(),
{
    assert forall|m: int| 0 <= m < a.skip(base).len() implies #[trigger] b.skip(base)[m] == a.skip(base)[m] by {
        assert(b.take(a.len() as int)[base + m] == b[base + m]);
    }
}

pub(crate) proof fn lemma_skip_all(q: Seq<Cmd>)
    ensures
        q.skip(q.len() as int).len() == 0,
{
}

pub(crate) proof fn lemma_appended_trans(a: Seq<Cmd>, b: Seq<Cmd>, c: Seq<Cmd>)
    requires
        appended(a, b),
        appended(b, c),
    ensures
        appended(a, c),
{
    assert(c.take(a.len() as int) =~= b.take(a.len() as int));
}

/// Appends a command that needs nothing of the world.
pub(crate) fn push_cmd(q: &mut Vec<Cmd>, c: Cmd)
    requires
        cmd_wf(c),
    ensures
        final(q)@ == old(q)@.push(c),
        appended(old(q)@, final(q)@),
{
    q.push(c);
    assert(final(q)@.take(old(q)@.len() as int) =~= old(q)@);
}

/// Half of `v`, rounded towards zero.
fn half(v: i32) -> (r: i32)
    ensures
        v >= 0 ==> r == v / 2,
        v < 0 ==> r == -((-v) / 2),
{
    if v >= 0 {
        v / 2
    } else {
        let m: i32 = if v == i32::MIN { i32::MAX } else { -v };
        if v == i32::MIN {
            -((m / 2) + 1)
        } else {
            -(m / 2)
        }
    }
}

/// Half of `v`, rounded towards zero.
pub open spec fn half_spec(v: int) -> int {
    if v >= 0 {
        v / 2
    } else {
        -((-v) / 2)
    }
}

/// `cmds` are the commands that effect `ef` of an attack from `pos` on
/// `target` queues, by the attacker standing at `origin`, when its damage roll
/// came out as `hit`: damage on a hit and the miss visual on a miss; the
/// velocity of the blow for a knockback; the attacker's removal for a self
/// destruct; a move of the target half-way towards the attacker for a pull.
pub open spec fn effect_cmds_ok(
    ef: Effect,
    hit: bool,
    origin: Point,
    pos: Point,
    target: Point,
    miss_fx: crate::vfx::Vfx,
    cmds: Seq<Cmd>,
) -> bool {
    match ef {
        Effect::DoDmg(inst) => if hit {
            cmds == seq![Cmd::Damage { at: target, inst }]
        } else {
            &&& cmds.len() == 1
            &&& cmds[0] is Effect
            &&& cmds[0]->Effect_at == target
            &&& cmds[0]->Effect_vfx.frames@ == miss_fx.frames@
            &&& cmds[0]->Effect_vfx.cur_idx == miss_fx.cur_idx
        },
        Effect::Other(OtherEffect::Knockback) => cmds == seq![
            Cmd::SetVel { at: target, vel: Some(target.minus(pos)) },
        ],
        Effect::Other(OtherEffect::SelfDestruct) => cmds == seq![Cmd::Delete { at: origin }],
        Effect::Other(OtherEffect::Pull) => {
            let step = Point {
                x: half_spec(pos.x - target.x) as i32,
                y: half_spec(pos.y - target.y) as i32,
            };
            if target.can_add(step) {
                cmds == seq![Cmd::MoveTo { from: target, to: target.plus(step) }]
            } else {
                cmds.len() == 0
            }
        },
    }
}

/// The commands that one effect of an attack queues, given whether its
/// damage roll hit.
pub fn effect_cmds(
    ef: Effect,
    hit: bool,
    origin: Point,
    pos: Point,
    target: Point,
    miss_fx: &crate::vfx::Vfx,
) -> (r: Vec<Cmd>)
    requires
        pos.bounded(),
        target.bounded(),
    ensures
        effect_cmds_ok(ef, hit, origin, pos, target, *miss_fx, r@),
{
    match ef {
        Effect::DoDmg(inst) => {
            if hit {
                let r = vec![Cmd::Damage { at: target, inst }];
                assert(r@ =~= seq![Cmd::Damage { at: target, inst }]);
                r
            } else {
                let v = miss_fx.duplicate();
                let mut r: Vec<Cmd> = Vec::new();
                r.push(Cmd::Effect { at: target, vfx: v });
                r
            }
        },
        Effect::Other(OtherEffect::Knockback) => {
            let r = vec![Cmd::SetVel { at: target, vel: Some(target.sub(pos)) }];
            assert(r@ =~= seq![Cmd::SetVel { at: target, vel: Some(target.minus(pos)) }]);
            r
        },
        Effect::Other(OtherEffect::SelfDestruct) => {
            let r = vec![Cmd::Delete { at: origin }];
            assert(r@ =~= seq![Cmd::Delete { at: origin }]);
            r
        },
        Effect::Other(OtherEffect::Pull) => {
            let d = pos.sub(target);
            let step = Point::new(half(d.x), half(d.y));
            match target.checked_add(step) {
                Some(to) => {
                    let r = vec![Cmd::MoveTo { from: target, to }];
                    assert(r@ =~= seq![Cmd::MoveTo { from: target, to }]);
                    r
                },
                None => Vec::new(),
            }
        },
    }
}

/// Queues what one effect of an attack from `pos` does to `target`; `origin`
/// is where the attacker stands. A damaging effect rolls its accuracy; a
/// certain one always hits, and whatever the roll gives, the commands are
/// those of [`effect_cmds`] for it.
fn queue_effect(
    ef: Effect,
    origin: Point,
    pos: Point,
    target: Point,
    miss_fx: &crate::vfx::Vfx,
    q: &mut Vec<Cmd>,
)
    requires
        pos.bounded(),
        target.bounded(),
    ensures
        appended(old(q)@, final(q)@),
        exists|hit: bool|
            (ef matches Effect::DoDmg(inst) && inst.acc.num >= inst.acc.den ==> hit) && #[trigger] effect_cmds_ok(
                ef,
                hit,
                origin,
                pos,
                target,
                *miss_fx,
                final(q)@.skip(old(q)@.len() as int),
            ),
{
    let hit = match ef {
        Effect::DoDmg(inst) => if inst.acc.num >= inst.acc.den {
            true
        } else {
            roll(inst.acc)
        },
        Effect::Other(_) => true,
    };
    let mut cmds = effect_cmds(ef, hit, origin, pos, target, miss_fx);
    let ghost c = cmds@;
    q.append(&mut cmds);
    assert(q@.skip(old(q)@.len() as int) =~= c);
    assert(q@.take(old(q)@.len() as int) =~= old(q)@);
    assert forall|k: int| 0 <= k < c.len() implies cmd_wf(#[trigger] c[k]) by {}
}

/// Queues the `j`th melee attack of the `i`th direction of `en`, made from
/// `pos` by the entity standing at `origin`.
fn do_melee(en: &En, origin: Point, pos: Point, i: usize, j: usize, q: &mut Vec<Cmd>)
    requires
        en.wf(),
        pos.bounded(),
        i < en.atks.melee_atks@.len(),
        j < en.atks.atks_of(i as int).len(),
    ensures
        appended(old(q)@, final(q)@),
        attack_queued(*en, pos, i as int, j as int, final(q)@.skip(old(q)@.len() as int)),
{
    let ghost base = old(q)@.len() as int;
    let atk = &en.atks.melee_atks[i].1[j];
    assert(atk.wf());
    proof {
        lemma_appended_refl(q@);
    }
    let mut f: usize = 0;
    while f < atk.fx.len()
        invariant
            atk.wf(),
            pos.bounded(),
            f <= atk.fx@.len(),
            appended(old(q)@, q@),
        decreases atk.fx@.len() - f,
    {
        assert(atk.fx@[f as int].0.small());
        let at = pos.add(atk.fx[f].0);
        let ghost q0 = q@;
        push_cmd(q, Cmd::Effect { at, vfx: atk.fx[f].1.clone() });
        proof {
            lemma_appended_trans(old(q)@, q0, q@);
        }
        f = f + 1;
    }
    let mut k: usize = 0;
    while k < atk.place.len()
        invariant
            atk.wf(),
            pos.bounded(),
            k <= atk.place@.len(),
            appended(old(q)@, q@),
            *atk == en.atks.atks_of(i as int)[j as int],
            base == old(q)@.len(),
            forall|k2: int, e: int|
                #![trigger atk.place@[k2], atk.effects@[e]]
                0 <= k2 < k && 0 <= e < atk.effects@.len() && pos.plus(atk.place@[k2]).bounded() && atk.effects@[e] is DoDmg
                    ==> exists|m: int|
                    0 <= m < q@.skip(base).len() && blow_at(#[trigger] q@.skip(base)[m], pos.plus(atk.place@[k2]), atk.effects@[e]->DoDmg_0),
        decreases atk.place@.len() - k,
    {
        let ghost qk = q@;
        assert(atk.place@[k as int].small());
        let target = pos.add(atk.place[k]);
        if target.x >= -0x3fff_ffff && target.x <= 0x3fff_ffff && target.y >= -0x3fff_ffff
            && target.y <= 0x3fff_ffff {
            let mut e: usize = 0;
            proof {
                lemma_appended_refl(q@);
            }
            while e < atk.effects.len()
                invariant
                    pos.bounded(),
                    target.bounded(),
                    target == pos.plus(atk.place@[k as int]),
                    k < atk.place@.len(),
                    e <= atk.effects@.len(),
                    appended(old(q)@, q@),
                    appended(qk, q@),
                    base == old(q)@.len(),
                    qk.len() >= base,
                    forall|e2: int|
                        0 <= e2 < e && (#[trigger] atk.effects@[e2]) is DoDmg ==> exists|m: int|
                            0 <= m < q@.skip(base).len() && blow_at(#[trigger] q@.skip(base)[m], target, atk.effects@[e2]->DoDmg_0),
                decreases atk.effects@.len() - e,
            {
                let ghost q0 = q@;
                let ef = atk.effects[e];
                queue_effect(ef, origin, pos, target, &atk.miss_fx, q);
                proof {
                    lemma_appended_trans(old(q)@, q0, q@);
                    lemma_appended_trans(qk, q0, q@);
                    lemma_blows_kept(q0, q@, base);
                    assert(q0.len() >= base);
                    assert forall|e2: int|
                        0 <= e2 < e + 1 && (#[trigger] atk.effects@[e2]) is DoDmg implies exists|m: int|
                            0 <= m < q@.skip(base).len() && blow_at(#[trigger] q@.skip(base)[m], target, atk.effects@[e2]->DoDmg_0) by {
                        if e2 < e {
                            let m = choose|m: int|
                                0 <= m < q0.skip(base).len() && blow_at(#[trigger] q0.skip(base)[m], target, atk.effects@[e2]->DoDmg_0);
                            assert(q@.skip(base)[m] == q0.skip(base)[m]);
                        } else {
                            assert(atk.effects@[e2] == ef);
                            let hit = choose|hit: bool|
                                (ef matches Effect::DoDmg(inst) && inst.acc.num >= inst.acc.den ==> hit) && #[trigger] effect_cmds_ok(
                                    ef, hit, origin, pos, target, atk.miss_fx, q@.skip(q0.len() as int));
                            assert(q@.skip(q0.len() as int).len() == 1);
                            let m = q0.len() - base;
                            assert(q@.skip(base)[m] == q@[q0.len() as int]);
                            assert(q@.skip(q0.len() as int)[0] == q@[q0.len() as int]);
                            assert(blow_at(q@.skip(base)[m], target, ef->DoDmg_0));
                        }
                    }
                }
                e = e + 1;
            }
        }
        proof {
            lemma_appended_refl(qk);
            lemma_blows_kept(qk, q@, base);
            assert forall|k2: int, e: int|
                #![trigger atk.place@[k2], atk.effects@[e]]
                0 <= k2 < k + 1 && 0 <= e < atk.effects@.len() && pos.plus(atk.place@[k2]).bounded() && atk.effects@[e] is DoDmg
                    implies exists|m: int|
                    0 <= m < q@.skip(base).len() && blow_at(#[trigger] q@.skip(base)[m], pos.plus(atk.place@[k2]), atk.effects@[e]->DoDmg_0) by {
                if k2 < k {
                    let m = choose|m: int|
                        0 <= m < qk.skip(base).len() && blow_at(#[trigger] qk.skip(base)[m], pos.plus(atk.place@[k2]), atk.effects@[e]->DoDmg_0);
                    assert(q@.skip(base)[m] == qk.skip(base)[m]);
                } else {
                    assert(atk.effects@[e] is DoDmg);
                }
            }
        }
        k = k + 1;
    }
}

/// A cell on the grid has small coordinates.
pub(crate) proof fn lemma_grid_bounded(w: World, p: Point)
    requires
        w.wf(),
        w.tile_at(p) is Some,
    ensures
        p.bounded(),
{
}

/// The first attack, in the pattern's order, that strikes an opponent from
/// `pos`; with `dir`, only attacks bound to that direction count.
fn find_strike(w: &World, en: &En, pos: Point, dir: Option<Point>) -> (r: Option<(usize, usize)>)
    requires
        w.wf(),
        en.wf(),
        pos.bounded(),
    ensures
        r is None ==> forall|i: int, j: int|
            (dir is None || en.atks.melee_atks@[i].0 == dir->Some_0) ==> !#[trigger] strikes(
                *w,
                *en,
                pos,
                i,
                j,
            ),
        r is Some ==> strikes(*w, *en, pos, r->Some_0.0 as int, r->Some_0.1 as int),
        r is Some && dir is Some ==> en.atks.melee_atks@[r->Some_0.0 as int].0 == dir->Some_0,
{
    let pat = &en.atks;
    let mut i: usize = 0;
    while i < pat.melee_atks.len()
        invariant
            w.wf(),
            en.wf(),
            pos.bounded(),
            *pat == en.atks,
            i <= pat.melee_atks@.len(),
            forall|i2: int, j2: int|
                0 <= i2 < i && (dir is None || en.atks.melee_atks@[i2].0 == dir->Some_0)
                    ==> !#[trigger] strikes(*w, *en, pos, i2, j2),
        decreases pat.melee_atks@.len() - i,
    {
        let wanted = match dir {
            Some(d) => pat.melee_atks[i].0 == d,
            None => true,
        };
        if wanted {
            let atks = &pat.melee_atks[i].1;
            let mut j: usize = 0;
            while j < atks.len()
                invariant
                    w.wf(),
                    en.wf(),
                    pos.bounded(),
                    *pat == en.atks,
                    i < pat.melee_atks@.len(),
                    *atks == pat.melee_atks@[i as int].1,
                    wanted,
                    dir is Some ==> en.atks.melee_atks@[i as int].0 == dir->Some_0,
                    j <= atks@.len(),
                    forall|i2: int, j2: int|
                        0 <= i2 < i && (dir is None || en.atks.melee_atks@[i2].0 == dir->Some_0)
                            ==> !#[trigger] strikes(*w, *en, pos, i2, j2),
                    forall|j2: int| 0 <= j2 < j ==> !#[trigger] strikes(*w, *en, pos, i as int, j2),
                decreases atks@.len() - j,
            {
                let atk = &atks[j];
                assert(atk.wf());
                let mut k: usize = 0;
                while k < atk.place.len()
                    invariant
                        w.wf(),
                        pos.bounded(),
                        atk.wf(),
                        i < en.atks.melee_atks@.len(),
                        j < en.atks.atks_of(i as int).len(),
                        dir is Some ==> en.atks.melee_atks@[i as int].0 == dir->Some_0,
                        *atk == en.atks.atks_of(i as int)[j as int],
                        k <= atk.place@.len(),
                        forall|k2: int|
                            0 <= k2 < k ==> {
                                let t = pos.plus(#[trigger] atk.place@[k2]);
                                !(w.ent_at(t) is Some && opponent(*en, w.ent_at(t)->Some_0))
                            },
                    decreases atk.place@.len() - k,
                {
                    assert(atk.place@[k as int].small());
                    let t = pos.add(atk.place[k]);
                    match w.get_ent(t) {
                        Some(e) => {
                            if !e.dormant && e.is_player != en.is_player {
                                assert(en.atks.atks_of(i as int)[j as int].place@[k as int]
                                    == atk.place@[k as int]);
                                assert(strikes(*w, *en, pos, i as int, j as int));
                                return Some((i, j));
                            }
                        },
                        None => {},
                    }
                    k = k + 1;
                }
                j = j + 1;
            }
        }
        i = i + 1;
    }
    None
}

/// Resolves `action` for `en`, standing at `origin` and acting from `pos`,
/// against a snapshot of the world: queues the commands it causes and reports
/// the outcome. Combinators resolve their parts with this same function;
/// jumps follow at most `fuel` nested program steps.
pub fn resolve(
    w: &World,
    ctx: &GameContext,
    en: &En,
    origin: Point,
    action: &ActionType,
    pos: Point,
    fuel: usize,
    q: &mut Vec<Cmd>,
) -> (out: Outcome)
    requires
        w.wf(),
        en.wf(),
        pos.bounded(),
    ensures
        resolves(*w, *ctx, *en, *action, pos, fuel as nat, out, final(q)@.skip(old(q)@.len() as int)),
        appended(old(q)@, final(q)@),
        out.pos.bounded(),
    decreases fuel, action,
{
    proof {
        lemma_appended_refl(q@);
        lemma_skip_all(q@);
    }
    let stay = Outcome { pos, acted: false, cursor: None };
    match action {
        ActionType::Wait => Outcome { pos, acted: true, cursor: None },
        ActionType::TryMove(d) => try_move(w, ctx, en, origin, pos, *d, q),
        ActionType::TryMelee => {
            if en.is_player {
                match find_strike(w, en, pos, None) {
                    Some((i, j)) => {
                        do_melee(en, origin, pos, i, j, q);
                        Outcome { pos, acted: true, cursor: None }
                    },
                    None => stay,
                }
            } else {
                match en.atks.melee_hit_from(pos, ctx.player) {
                    Some((d, n)) => {
                        let i = en.atks.dir_index(d).unwrap();
                        do_melee(en, origin, pos, i, n, q);
                        Outcome { pos, acted: true, cursor: None }
                    },
                    None => stay,
                }
            }
        },
        ActionType::ForceMelee(d, n) => {
            if let Some(i) = en.atks.dir_index(*d) {
                if *n < en.atks.melee_atks[i].1.len() {
                    do_melee(en, origin, pos, i, *n, q);
                }
                proof {
                    assert forall|i2: int|
                        0 <= i2 < en.atks.melee_atks@.len() && (#[trigger] en.atks.melee_atks@[i2]).0 == *d
                            && *n < en.atks.atks_of(i2).len() implies attack_queued(*en, pos, i2, *n as int, q@.skip(old(q)@.len() as int)) by {
                        if i2 != i as int {
                            if i2 < i as int {
                                assert(crate::point::dir_rank(en.atks.melee_atks@[i2].0) < crate::point::dir_rank(en.atks.melee_atks@[i as int].0));
                            } else {
                                assert(crate::point::dir_rank(en.atks.melee_atks@[i as int].0) < crate::point::dir_rank(en.atks.melee_atks@[i2].0));
                            }
                        }
                    }
                }
            }
            Outcome { pos, acted: true, cursor: None }
        },
        ActionType::Fire(idx) => fire(w, ctx, en, origin, pos, *idx, q),
        ActionType::Pathfind => pathfind(w, ctx, en, origin, pos, q),
        ActionType::Multi(a, b) => {
            let oa = resolve(w, ctx, en, origin, a, pos, fuel, q);
            let ghost q1 = q@;
            let ob = resolve(w, ctx, en, origin, b, oa.pos, fuel, q);
            proof {
                lemma_appended_trans(old(q)@, q1, q@);
                lemma_skip_concat(old(q)@, q1, q@);
                let ca = q1.skip(old(q)@.len() as int);
                let cb = q@.skip(q1.len() as int);
                assert(step3(oa, ca, cb) == (oa, ca, cb));
            }
            ob
        },
        ActionType::Chain(a, b) => {
            let oa = resolve(w, ctx, en, origin, a, pos, fuel, q);
            let ghost q1 = q@;
            let ghost ca = q1.skip(old(q)@.len() as int);
            assert(step(oa, ca) == (oa, ca));
            if oa.acted {
                oa
            } else {
                let ob = resolve(w, ctx, en, origin, b, oa.pos, fuel, q);
                proof {
                    lemma_appended_trans(old(q)@, q1, q@);
                    lemma_skip_concat(old(q)@, q1, q@);
                    let cb = q@.skip(q1.len() as int);
                    assert(step(ob, cb) == (ob, cb));
                }
                Outcome { acted: true, ..ob }
            }
        },
        ActionType::Jump(_) | ActionType::CondBranch(_, _, _) => {
            let idx: usize = match action {
                ActionType::Jump(i) => *i,
                ActionType::CondBranch(t, f, c) => {
                    let holds = match c {
                        Cond::PlayerWithin(r) => pos.dist_squared(ctx.player) <= *r as u128,
                        Cond::HpAtMost(h) => en.hp.value() <= *h,
                    };
                    if holds {
                        *t
                    } else {
                        *f
                    }
                },
                _ => 0,
            };
            if fuel == 0 || idx >= en.actions.len() {
                proof {
                    lemma_skip_all(q@);
                }
                return stay;
            }
            let o = resolve(w, ctx, en, origin, &en.actions[idx], pos, fuel - 1, q);
            assert(step(o, q@.skip(old(q)@.len() as int)) == (o, q@.skip(old(q)@.len() as int)));
            let len = en.actions.len();
            let c = match o.cursor {
                Some(c) => c,
                None => if idx + 1 >= len {
                    0
                } else {
                    idx + 1
                },
            };
            Outcome { cursor: Some(c), ..o }
        },
        ActionType::Arbitrary(s) => match s {
            Script::Blink(d) => {
                match pos.checked_add(*d) {
                    Some(dest) => {
                        if w.is_free(dest) {
                            proof {
                                lemma_grid_bounded(*w, dest);
                            }
                            Outcome { pos: dest, acted: true, cursor: None }
                        } else {
                            Outcome { pos, acted: true, cursor: None }
                        }
                    },
                    None => Outcome { pos, acted: true, cursor: None },
                }
            },
            Script::HealSelf(h) => {
                push_cmd(q, Cmd::Damage { at: origin, inst: DmgInst::heal(*h) });
                Outcome { pos, acted: true, cursor: None }
            },
        },
    }
}

/// `TryMove(d)`: attack an opponent that an attack in direction `d` reaches,
/// else unlock or enter the destination, pushing aside an entity there when
/// the room is clear.
fn try_move(
    w: &World,
    ctx: &GameContext,
    en: &En,
    origin: Point,
    pos: Point,
    d: Point,
    q: &mut Vec<Cmd>,
) -> (out: Outcome)
    requires
        w.wf(),
        en.wf(),
        pos.bounded(),
    ensures
        out == move_outcome(*w, *ctx, *en, pos, d),
        appended(old(q)@, final(q)@),
        !out.acted ==> final(q)@ == old(q)@,
        pos.can_add(d) && dir_strikes(*w, *en, pos, d) ==> exists|i: int, j: int|
            #[trigger] attack_queued(*en, pos, i, j, final(q)@.skip(old(q)@.len() as int)) && en.atks.melee_atks@[i].0 == d
                && strikes(*w, *en, pos, i, j),
        out.pos.bounded(),
{
    proof {
        lemma_appended_refl(q@);
    }
    let stay = Outcome { pos, acted: false, cursor: None };
    let dest = match pos.checked_add(d) {
        Some(p) => p,
        None => {
            return stay;
        },
    };
    match find_strike(w, en, pos, Some(d)) {
        Some((i, j)) => {
            assert(dir_strikes(*w, *en, pos, d));
            do_melee(en, origin, pos, i, j, q);
            return Outcome { pos, acted: true, cursor: None };
        },
        None => {},
    }
    let t = match w.get_tile(dest) {
        Some(t) => t,
        None => {
            return stay;
        },
    };
    proof {
        lemma_grid_bounded(*w, dest);
    }
    let key = t.unlockable(&ctx.keys);
    let enter = !t.blocking || key || (ctx.no_clip && en.is_player);
    let occupied = w.get_ent(dest).is_some();
    if enter && (!occupied || ctx.enemies_remaining == 0) {
        if t.blocking && key {
            push_cmd(q, Cmd::Unlock { at: dest });
            Outcome { pos, acted: true, cursor: None }
        } else {
            if occupied {
                if let Some(beyond) = dest.checked_add(d) {
                    push_cmd(q, Cmd::MoveTo { from: dest, to: beyond });
                }
            }
            Outcome { pos: dest, acted: true, cursor: None }
        }
    } else {
        stay
    }
}

/// Whether every cell strictly between `a` and `b` is free.
fn line_is_clear(w: &World, a: Point, b: Point) -> (r: bool)
    requires
        w.wf(),
    ensures
        r == line_clear(*w, a, b),
{
    let line = plot_line(a, b);
    let mut i: usize = 1;
    while i < line.len() - 1
        invariant
            w.wf(),
            line@.len() == line_steps(a, b) + 1,
            forall|k: int| 0 <= k < line@.len() ==> #[trigger] line@[k] == line_point(a, b, k),
            1 <= i,
            forall|k: int| 0 < k < i && k < line_steps(a, b) ==> w.free_spec(#[trigger] line_point(a, b, k)),
        decreases line@.len() - i,
    {
        if !w.is_free(line[i]) {
            assert(line@[i as int] == line_point(a, b, i as int));
            return false;
        }
        i = i + 1;
    }
    true
}

/// The nearest cell, in row-major order among equals, holding a target that
/// a ranged attack of range `range` can hit from `pos`.
fn nearest_target(w: &World, en: &En, pos: Point, range: u32) -> (r: Option<Point>)
    requires
        w.wf(),
    ensures
        r is Some ==> fire_target(*w, *en, pos, range, r->Some_0),
        r is None ==> forall|t: Point| !#[trigger] fire_target(*w, *en, pos, range, t),
{
    let mut best: Option<(Point, u128)> = None;
    assert(range * range <= 0xffff_ffff * 0xffff_ffff) by (nonlinear_arith)
        requires range <= 0xffff_ffff;
    let lim: u128 = range as u128 * range as u128;
    let mut y: usize = 0;
    while y < w.height
        invariant
            w.wf(),
            y <= w.height,
            lim == range * range,
            best is Some ==> fire_target(*w, *en, pos, range, best->Some_0.0),
            best is None ==> forall|t: Point| 0 <= t.y < y ==> !#[trigger] fire_target(*w, *en, pos, range, t),
        decreases w.height - y,
    {
        let mut x: usize = 0;
        while x < w.width
            invariant
                w.wf(),
                y < w.height,
                x <= w.width,
                lim == range * range,
                best is Some ==> fire_target(*w, *en, pos, range, best->Some_0.0),
                best is None ==> forall|t: Point|
                    (0 <= t.y < y || (t.y == y && 0 <= t.x < x)) ==> !#[trigger] fire_target(*w, *en, pos, range, t),
            decreases w.width - x,
        {
            let t = Point::new(x as i32, y as i32);
            if t != pos {
                if let Some(e) = w.get_ent(t) {
                    if !e.dormant && e.is_player != en.is_player {
                        let d = pos.dist_squared(t);
                        if d <= lim && line_is_clear(w, pos, t) {
                            let better = match best {
                                None => true,
                                Some((_, bd)) => d < bd,
                            };
                            if better {
                                best = Some((t, d));
                            }
                        }
                    }
                }
            }
            x = x + 1;
        }
        y = y + 1;
    }
    proof {
        assert forall|t: Point| best is None implies !#[trigger] fire_target(*w, *en, pos, range, t) by {
            if fire_target(*w, *en, pos, range, t) {
                assert(w.in_bounds(t));
            }
        }
    }
    match best {
        Some((t, _)) => Some(t),
        None => None,
    }
}

/// `Fire(idx)`: when the ranged attack exists and a target is in range with
/// a clear line, attack the nearest such target. Each damaging effect rolls
/// its accuracy; the line from attacker to target is drawn whether or not it
/// hits, in the attack's hit or miss glyph.
fn fire(
    w: &World,
    ctx: &GameContext,
    en: &En,
    origin: Point,
    pos: Point,
    idx: usize,
    q: &mut Vec<Cmd>,
) -> (out: Outcome)
    requires
        w.wf(),
        en.wf(),
        pos.bounded(),
    ensures
        resolves(*w, *ctx, *en, ActionType::Fire(idx), pos, 0, out, final(q)@.skip(old(q)@.len() as int)),
        appended(old(q)@, final(q)@),
        out.pos.bounded(),
{
    proof {
        lemma_appended_refl(q@);
    }
    if idx >= en.atks.ranged_atks.len() {
        return Outcome { pos, acted: false, cursor: None };
    }
    let atk = &en.atks.ranged_atks[idx];
    let target = match nearest_target(w, en, pos, atk.range) {
        Some(t) => t,
        None => {
            return Outcome { pos, acted: false, cursor: None };
        },
    };
    assert(w.tile_at(target) is Some);
    proof {
        lemma_grid_bounded(*w, target);
    }
    let line = plot_line(pos, target);
    let mut e: usize = 0;
    while e < atk.effects.len()
        invariant
            pos.bounded(),
            target.bounded(),
            e <= atk.effects@.len(),
            appended(old(q)@, q@),
        decreases atk.effects@.len() - e,
    {
        let ghost q0 = q@;
        match atk.effects[e] {
            Effect::DoDmg(inst) => {
                let hit = if inst.acc.num >= inst.acc.den {
                    true
                } else {
                    roll(inst.acc)
                };
                let glyph = if hit {
                    atk.line_fx.hit
                } else {
                    atk.line_fx.miss
                };
                proof {
                    lemma_appended_refl(q@);
                }
                let mut k: usize = 1;
                while k < line.len()
                    invariant
                        k >= 1,
                        appended(q0, q@),
                    decreases line@.len() - k,
                {
                    let ghost q1 = q@;
                    push_cmd(q, Cmd::Effect { at: line[k], vfx: crate::vfx::Vfx::new_opaque(glyph, atk.line_fx.frames) });
                    proof {
                        lemma_appended_trans(q0, q1, q@);
                    }
                    k = k + 1;
                }
                if hit {
                    let ghost q2 = q@;
                    push_cmd(q, Cmd::Damage { at: target, inst });
                    proof {
                        lemma_appended_trans(q0, q2, q@);
                    }
                }
            },
            Effect::Other(_) => {
                let miss = crate::vfx::Vfx::new(Vec::new());
                queue_effect(atk.effects[e], origin, pos, target, &miss, q);
            },
        }
        proof {
            lemma_appended_trans(old(q)@, q0, q@);
        }
        e = e + 1;
    }
    assert(fire_target(*w, *en, pos, en.atks.ranged_atks@[idx as int].range, target));
    Outcome { pos, acted: true, cursor: None }
}

/// Attacks the player with the first melee attack that reaches it from `pos`.
fn melee_on_player(ctx: &GameContext, en: &En, origin: Point, pos: Point, q: &mut Vec<Cmd>)
    requires
        en.wf(),
        pos.bounded(),
    ensures
        appended(old(q)@, final(q)@),
{
    proof {
        lemma_appended_refl(q@);
    }
    if let Some((d, n)) = en.atks.melee_hit_from(pos, ctx.player) {
        let i = en.atks.dir_index(d).unwrap();
        do_melee(en, origin, pos, i, n, q);
    }
}

/// `Pathfind`: one step along a shortest path, of at most [`PATH_DEPTH`]
/// steps through free cells, towards a cell from which some melee attack
/// reaches the player; when already on such a cell, or when the step would
/// land on the player, attack instead. Always takes the turn.
fn pathfind(
    w: &World,
    ctx: &GameContext,
    en: &En,
    origin: Point,
    pos: Point,
    q: &mut Vec<Cmd>,
) -> (out: Outcome)
    requires
        w.wf(),
        en.wf(),
        pos.bounded(),
    ensures
        resolves(*w, *ctx, *en, ActionType::Pathfind, pos, 0, out, final(q)@.skip(old(q)@.len() as int)),
        appended(old(q)@, final(q)@),
        out.pos.bounded(),
{
    proof {
        lemma_appended_refl(q@);
    }
    let player = ctx.player;
    if player.x < -0x3fff_ffff || player.x > 0x3fff_ffff || player.y < -0x3fff_ffff || player.y
        > 0x3fff_ffff {
        return Outcome { pos, acted: true, cursor: None };
    }
    if w.index_of(pos).is_none() {
        return Outcome { pos, acted: true, cursor: None };
    }
    let goals = en.atks.find_attack_positions(player);
    match find_first_step(w, pos, &goals, &en.movement, PATH_DEPTH) {
        PathStep::Step(p) => {
            if p != player && p != pos {
                proof {
                    lemma_grid_bounded(*w, p);
                }
                return Outcome { pos: p, acted: true, cursor: None };
            }
            melee_on_player(ctx, en, origin, pos, q);
        },
        PathStep::Arrived => {
            melee_on_player(ctx, en, origin, pos, q);
        },
        PathStep::NoPath => {},
    }
    Outcome { pos, acted: true, cursor: None }
}

} // verus!
