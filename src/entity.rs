//! Entities: their hit points, action programs, and scheduling priority.

use vstd::prelude::*;
use crate::attacks::AtkPat;
use crate::damage::{DmgInst, DmgType};
use crate::datum::Datum;
use crate::point::Point;
use crate::vfx::Glyph;

verus! {

/// Describes the way in which an entity differs from a normal entity.
#[derive(Clone, Copy, Debug, PartialEq, Eq, Structural)]
pub enum Special {
    /// A sentry that keeps a door locked while its room holds enemies.
    WallSentry,
    /// Anything that isn't special.
    Not,
}

/// A named predicate over the world, the acting entity and its position.
#[derive(Clone, Copy, Debug, PartialEq, Eq, Structural)]
pub enum Cond {
    /// The player is within this squared distance.
    PlayerWithin(u32),
    /// The acting entity has at most this many hit points.
    HpAtMost(u32),
}

/// A named scripted action that produces commands directly.
#[derive(Clone, Copy, Debug, PartialEq, Eq, Structural)]
pub enum Script {
    /// Move by this offset if the destination is free.
    Blink(Point),
    /// Heal the acting entity by this amount.
    HealSelf(u32),
}

/// One step of an entity's program.
#[derive(Debug)]
pub enum ActionType {
    /// Try to move with the given displacement.
    TryMove(Point),
    /// Use the first melee attack that hits an opponent, if there is one.
    TryMelee,
    /// Use the melee attack with the given direction and index, whatever it hits.
    ForceMelee(Point, usize),
    /// Use the ranged attack at the given index.
    Fire(usize),
    /// Move one step along a path towards a cell from which the player can be hit.
    Pathfind,
    /// Do nothing.
    Wait,
    /// Does both actions, regardless of success.
    Multi(Box<ActionType>, Box<ActionType>),
    /// Does the first action, and if it does not take the turn, the second one.
    Chain(Box<ActionType>, Box<ActionType>),
    /// Does the action at this index of the entity's program.
    Jump(usize),
    /// Does the action at the first index if the condition holds, else at the second.
    CondBranch(usize, usize, Cond),
    /// Runs a script; always takes the turn.
    Arbitrary(Script),
}

impl ActionType {
    /// A copy of this action.
    pub fn duplicate(&self) -> (r: ActionType)
        ensures
            r == *self,
        decreases self,
    {
        match self {
            ActionType::TryMove(d) => ActionType::TryMove(*d),
            ActionType::TryMelee => ActionType::TryMelee,
            ActionType::ForceMelee(d, i) => ActionType::ForceMelee(*d, *i),
            ActionType::Fire(i) => ActionType::Fire(*i),
            ActionType::Pathfind => ActionType::Pathfind,
            ActionType::Wait => ActionType::Wait,
            ActionType::Multi(a, b) => ActionType::Multi(
                Box::new((**a).duplicate()),
                Box::new((**b).duplicate()),
            ),
            ActionType::Chain(a, b) => ActionType::Chain(
                Box::new((**a).duplicate()),
                Box::new((**b).duplicate()),
            ),
            ActionType::Jump(i) => ActionType::Jump(*i),
            ActionType::CondBranch(t, f, c) => ActionType::CondBranch(*t, *f, *c),
            ActionType::Arbitrary(s) => ActionType::Arbitrary(*s),
        }
    }
}

/// A copy of a program.
pub fn duplicate_program(v: &Vec<ActionType>) -> (r: Vec<ActionType>)
    ensures
        r@ == v@,
{
    let mut r: Vec<ActionType> = Vec::new();
    let mut i: usize = 0;
    while i < v.len()
        invariant
            i <= v@.len(),
            r@ == v@.take(i as int),
        decreases v@.len() - i,
    {
        r.push(v[i].duplicate());
        i = i + 1;
        assert(r@ =~= v@.take(i as int));
    }
    assert(r@ =~= v@);
    r
}

/// A template for creating an entity from.
#[derive(Debug)]
pub struct EntityTemplate {
    pub max_hp: u32,
    pub delay: u8,
    pub movement: Vec<Point>,
    pub ch: Glyph,
    pub atks: AtkPat,
    pub actions: Vec<ActionType>,
}

/// An entity on the map.
#[derive(Debug)]
pub struct En {
    /// Current and maximum hit points.
    pub hp: Datum,
    /// The entity acts on turns that are a multiple of this.
    pub delay: u8,
    /// Is this entity the player?
    pub is_player: bool,
    /// How it is special.
    pub special: Special,
    /// Character representation of this entity.
    pub ch: Glyph,
    /// Each way the entity can attack its enemies.
    pub atks: AtkPat,
    /// Relative cells to which the entity could potentially move.
    pub movement: Vec<Point>,
    /// An entity that is dormant is present but does nothing until woken.
    pub dormant: bool,
    /// True if the entity acted this turn.
    pub acted: bool,
    /// Contains a value if the entity is forced to move in a specific direction.
    pub vel: Option<Point>,
    /// The entity's program.
    pub actions: Vec<ActionType>,
    /// Index of the next action of the program.
    pub cursor: usize,
}

/// Largest priority: the entity must act before anything else.
pub const PRIORITY_URGENT: u32 = 0xffff_ffff;

/// What applying a damage type to hit points `hp` reads as afterwards, and
/// whether it reports death.
pub open spec fn hp_after(hp: Datum, d: DmgType) -> (Option<u32>, bool) {
    match d {
        DmgType::Heal(h) => (hp.stored_after_set(hp.value_spec() + h), false),
        DmgType::Dmg(x) => if x >= hp.value_spec() {
            (Some(0u32), true)
        } else {
            (hp.stored_after_set(hp.value_spec() - x), false)
        },
    }
}

impl En {
    /// The entity is well formed: its hit points and attack pattern are, it
    /// has a non-zero delay and its movement offsets are small.
    pub open spec fn wf(&self) -> bool {
        &&& self.hp.wf()
        &&& self.atks.wf()
        &&& self.delay > 0
        &&& forall|k: int| 0 <= k < self.movement@.len() ==> (#[trigger] self.movement@[k]).small()
    }

    pub open spec fn is_dead_spec(&self) -> bool {
        self.hp.value_spec() == 0
    }

    /// Everything but the hit points is the same in `self` and `o`.
    pub open spec fn same_but_hp(&self, o: En) -> bool {
        &&& self.delay == o.delay
        &&& self.is_player == o.is_player
        &&& self.special == o.special
        &&& self.ch == o.ch
        &&& self.atks == o.atks
        &&& self.movement == o.movement
        &&& self.dormant == o.dormant
        &&& self.acted == o.acted
        &&& self.vel == o.vel
        &&& self.actions == o.actions
        &&& self.cursor == o.cursor
    }

    /// The scheduling priority: higher acts sooner.
    pub open spec fn priority_spec(&self, enemies_remaining: usize, global_time: u32) -> u32 {
        match self.special {
            Special::Not => if self.dormant {
                0
            } else if self.is_dead_spec() {
                PRIORITY_URGENT
            } else if self.vel.is_some() && !self.acted {
                3
            } else if self.is_player {
                1
            } else if global_time % (self.delay as u32) == 0 && !self.acted {
                2
            } else {
                0
            },
            Special::WallSentry => if enemies_remaining == 0 {
                PRIORITY_URGENT
            } else {
                0
            },
        }
    }

    /// The entity is about to act: not the player, not sliding, and its delay
    /// comes round on the next turn.
    pub open spec fn about_to_act(&self, global_time: u32) -> bool {
        &&& !self.is_player
        &&& self.vel.is_none()
        &&& (self.delay == 1 || global_time % (self.delay as u32) == (self.delay - 1) as u32)
    }

    /// The glyph drawn for this entity: blank while dormant, else its own
    /// glyph, on background `alert` when it is about to act.
    pub fn repr(&self, global_time: u32, alert: crossterm::style::Color) -> (r: Glyph)
        requires
            self.delay > 0,
        ensures
            self.dormant ==> r == Glyph::plain_spec(' '),
            !self.dormant && self.about_to_act(global_time) ==> r == (Glyph { bg: Some(alert), ..self.ch }),
            !self.dormant && !self.about_to_act(global_time) ==> r == self.ch,
    {
        if self.dormant {
            return Glyph::plain(' ');
        }
        let due = self.delay == 1 || global_time % (self.delay as u32) == (self.delay - 1) as u32;
        if !self.is_player && due && self.vel.is_none() {
            self.ch.on(alert)
        } else {
            self.ch
        }
    }

    /// Creates an entity with the provided data, at full health, with an
    /// empty program.
    pub fn new(
        max_hp: u32,
        is_player: bool,
        delay: u8,
        ch: Glyph,
        special: Special,
        movement: Vec<Point>,
        atks: AtkPat,
        dormant: bool,
    ) -> (r: En)
        ensures
            r.hp.max_spec() == max_hp,
            r.hp.value_spec() == max_hp,
            r.hp.wf(),
            r.is_player == is_player,
            r.delay == delay,
            r.ch == ch,
            r.special == special,
            r.movement@ == movement@,
            r.atks == atks,
            r.dormant == dormant,
            !r.acted,
            r.vel.is_none(),
            r.actions@.len() == 0,
            r.cursor == 0,
    {
        En {
            hp: Datum::new(max_hp),
            delay,
            is_player,
            special,
            ch,
            atks,
            movement,
            dormant,
            acted: false,
            vel: None,
            actions: Vec::new(),
            cursor: 0,
        }
    }

    /// Creates an ordinary entity from a template.
    pub fn from_template(template: &EntityTemplate, is_player: bool, dormant: bool) -> (r: En)
        ensures
            r.hp.max_spec() == template.max_hp,
            r.hp.value_spec() == template.max_hp,
            r.hp.wf(),
            r.is_player == is_player,
            r.delay == template.delay,
            r.ch == template.ch,
            r.special == Special::Not,
            r.dormant == dormant,
            !r.acted,
            r.vel.is_none(),
            r.cursor == 0,
            r.movement@ == template.movement@,
            r.actions@ == template.actions@,
            crate::attacks::pattern_same(r.atks, template.atks),
    {
        let mut movement: Vec<Point> = Vec::new();
        let mut i: usize = 0;
        while i < template.movement.len()
            invariant
                i <= template.movement@.len(),
                movement@ == template.movement@.take(i as int),
            decreases template.movement@.len() - i,
        {
            movement.push(template.movement[i]);
            i = i + 1;
            assert(movement@ =~= template.movement@.take(i as int));
        }
        assert(movement@ =~= template.movement@);
        let mut e = En::new(
            template.max_hp,
            is_player,
            template.delay,
            template.ch,
            Special::Not,
            movement,
            template.atks.duplicate(),
            dormant,
        );
        e.actions = duplicate_program(&template.actions);
        e
    }

    /// Applies the damage instance, whatever its accuracy; returns true when a
    /// blow of at least the remaining hit points kills the entity. Hit points
    /// then read as zero. A heal never kills.
    pub fn apply_dmg(&mut self, dmg: DmgInst) -> (died: bool)
        requires
            old(self).hp.wf(),
        ensures
            final(self).same_but_hp(*old(self)),
            final(self).hp.max_spec() == old(self).hp.max_spec(),
            final(self).hp.wf(),
            (final(self).hp.cur_spec(), died) == hp_after(old(self).hp, dmg.dmg),
    {
        match dmg.dmg {
            DmgType::Heal(h) => {
                self.hp.add_assign(h);
                false
            },
            DmgType::Dmg(d) => {
                if d >= self.hp.value() {
                    self.hp.set_to(0);
                    true
                } else {
                    self.hp.sub_assign(d);
                    false
                }
            },
        }
    }

    /// Whether the entity has no hit points left.
    pub fn is_dead(&self) -> (r: bool)
        ensures
            r == self.is_dead_spec(),
    {
        self.hp.value() == 0
    }

    /// The scheduling priority: dormant entities and those waiting for their
    /// turn come last, the player next, then entities due to act, then sliding
    /// ones; dead entities and sentries whose room is clear come first.
    pub fn priority(&self, enemies_remaining: usize, global_time: u32) -> (r: u32)
        requires
            self.delay > 0,
        ensures
            r == self.priority_spec(enemies_remaining, global_time),
    {
        match self.special {
            Special::Not => {
                if self.dormant {
                    0
                } else if self.is_dead() {
                    PRIORITY_URGENT
                } else if self.vel.is_some() && !self.acted {
                    3
                } else if self.is_player {
                    1
                } else if global_time % (self.delay as u32) == 0 && !self.acted {
                    2
                } else {
                    0
                }
            },
            Special::WallSentry => {
                if enemies_remaining == 0 {
                    PRIORITY_URGENT
                } else {
                    0
                }
            },
        }
    }
}

/// What a datum with maximum `max` and stored value `cur` reads as.
pub open spec fn reads_as(cur: Option<u32>, max: u32) -> u32 {
    match cur {
        Some(c) => c,
        None => max,
    }
}

/// A blow of at least the remaining hit points reports death and leaves them
/// reading as zero, however large it is.
pub proof fn lemma_overkill(hp: Datum, d: u32)
    requires
        hp.wf(),
        d >= hp.value_spec(),
    ensures
        reads_as(hp_after(hp, DmgType::Dmg(d)).0, hp.max_spec()) == 0,
        hp_after(hp, DmgType::Dmg(d)) == (Some(0u32), true),
{
}

/// A heal never reports death. It leaves the value at the old value plus the
/// heal when that fits under the maximum, and otherwise resets to the maximum;
/// either way the value never drops.
pub proof fn lemma_heal(hp: Datum, h: u32)
    requires
        hp.wf(),
    ensures
        !hp_after(hp, DmgType::Heal(h)).1,
        hp.value_spec() + h <= hp.max_spec() ==> reads_as(hp_after(hp, DmgType::Heal(h)).0, hp.max_spec()) == hp.value_spec() + h,
        hp.value_spec() + h > hp.max_spec() ==> hp_after(hp, DmgType::Heal(h)).0 == None::<u32>,
        reads_as(hp_after(hp, DmgType::Heal(h)).0, hp.max_spec()) >= hp.value_spec(),
        reads_as(hp_after(hp, DmgType::Heal(h)).0, hp.max_spec()) <= hp.max_spec(),
{
}

} // verus!
