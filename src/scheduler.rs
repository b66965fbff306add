//! The turn scheduler: the entity with the highest priority acts next, and its
//! commands are applied once its turn has been resolved.

use vstd::prelude::*;
use crate::engine::Outcome;
use crate::entity::ActionType;
use crate::point::Point;
use crate::turn::{take_turn, turn_result};
use crate::world::{Cmd, GameContext, World, queue_applied};

verus! {

/// The priority of the entity at `p`.
pub open spec fn prio_at(w: World, ctx: GameContext, p: Point) -> u32 {
    w.ent_at(p)->Some_0.priority_spec(ctx.enemies_remaining, ctx.global_time)
}

/// The position of the entity with the highest priority; among equals, the
/// first in row-major order. `None` when there are no entities.
pub fn highest_priority(w: &World, ctx: &GameContext) -> (r: Option<Point>)
    requires
        w.wf(),
    ensures
        r is None ==> forall|p: Point| #[trigger] w.ent_at(p) is None,
        r is Some ==> w.ent_at(r->Some_0) is Some,
        r is Some ==> forall|p: Point|
            #[trigger] w.ent_at(p) is Some ==> prio_at(*w, *ctx, p) <= prio_at(*w, *ctx, r->Some_0),
{
    let mut best: Option<(Point, u32)> = None;
    let mut y: usize = 0;
    while y < w.height
        invariant
            w.wf(),
            y <= w.height,
            best is None ==> forall|p: Point| 0 <= p.y < y ==> #[trigger] w.ent_at(p) is None,
            best is Some ==> w.ent_at(best->Some_0.0) is Some && best->Some_0.1 == prio_at(
                *w,
                *ctx,
                best->Some_0.0,
            ),
            best is Some ==> forall|p: Point|
                0 <= p.y < y && #[trigger] w.ent_at(p) is Some ==> prio_at(*w, *ctx, p)
                    <= best->Some_0.1,
        decreases w.height - y,
    {
        let mut x: usize = 0;
        while x < w.width
            invariant
                w.wf(),
                y < w.height,
                x <= w.width,
                best is None ==> forall|p: Point|
                    (0 <= p.y < y || (p.y == y && 0 <= p.x < x)) ==> #[trigger] w.ent_at(p) is None,
                best is Some ==> w.ent_at(best->Some_0.0) is Some && best->Some_0.1 == prio_at(
                    *w,
                    *ctx,
                    best->Some_0.0,
                ),
                best is Some ==> forall|p: Point|
                    (0 <= p.y < y || (p.y == y && 0 <= p.x < x)) && #[trigger] w.ent_at(p) is Some
                        ==> prio_at(*w, *ctx, p) <= best->Some_0.1,
            decreases w.width - x,
        {
            let p = Point::new(x as i32, y as i32);
            if let Some(e) = w.get_ent(p) {
                proof {
                    crate::world::lemma_grid_idx(w.width as int, w.height as int, p);
                    assert(w.ents@[w.idx(p)] is Some);
                }
                let pr = e.priority(ctx.enemies_remaining, ctx.global_time);
                let better = match best {
                    None => true,
                    Some((_, b)) => pr > b,
                };
                if better {
                    best = Some((p, pr));
                }
            }
            x = x + 1;
        }
        y = y + 1;
    }
    match best {
        Some((p, _)) => Some(p),
        None => None,
    }
}

/// Runs the turn of the entity at `pos` and applies the commands it queued,
/// in order; returns the outcome of its action, if it ran one.
pub fn play_turn(w: &mut World, ctx: &mut GameContext, pos: Point, input: &ActionType) -> (r: Option<Outcome>)
    requires
        old(w).wf(),
        old(w).ent_at(pos) is Some,
    ensures
        final(w).wf(),
        final(w).width == old(w).width,
        final(w).height == old(w).height,
        exists|cmds: Seq<Cmd>, cm: GameContext|
            #[trigger] turn_result(*old(w), *old(ctx), cm, pos, *input, cmds, r) && queue_applied(
                *old(w),
                cm,
                cmds,
                *final(w),
                *final(ctx),
            ),
{
    let (cmds, out) = take_turn(w, ctx, pos, input);
    let ghost cs = cmds@;
    let ghost cm = *ctx;
    w.apply_queue(ctx, cmds);
    assert(turn_result(*old(w), *old(ctx), cm, pos, *input, cs, out));
    out
}

/// The player is the entity with the highest priority (possibly tied).
pub open spec fn player_next(w: World, ctx: GameContext) -> bool {
    exists|p: Point|
        #[trigger] w.ent_at(p) is Some && w.ent_at(p)->Some_0.is_player && forall|o: Point|
            #[trigger] w.ent_at(o) is Some ==> prio_at(w, ctx, o) <= prio_at(w, ctx, p)
}

/// Plays one visible tick: entities act in order of priority until the player
/// is the next to act (after the first turn, which is always taken), the
/// player has died, or `max_turns` turns have passed. Returns the number of
/// turns taken.
pub fn run_tick(w: &mut World, ctx: &mut GameContext, input: &ActionType, max_turns: usize) -> (r: usize)
    requires
        old(w).wf(),
    ensures
        final(w).wf(),
        r <= max_turns,
        max_turns > 0 && !old(ctx).dead && (exists|p: Point| #[trigger] old(w).ent_at(p) is Some) ==> r >= 1,
        r < max_turns ==> final(ctx).dead || (forall|p: Point| #[trigger] final(w).ent_at(p) is None) || (r
            > 0 && player_next(*final(w), *final(ctx))),
{
    let mut turns: usize = 0;
    while turns < max_turns
        invariant
            w.wf(),
            turns <= max_turns,
            turns == 0 ==> *w == *old(w) && *ctx == *old(ctx),
        decreases max_turns - turns,
    {
        if ctx.dead {
            return turns;
        }
        let p = match highest_priority(w, ctx) {
            Some(p) => p,
            None => {
                return turns;
            },
        };
        let is_player = w.get_ent(p).unwrap().is_player;
        if turns > 0 && is_player {
            assert(player_next(*w, *ctx));
            return turns;
        }
        let _ = play_turn(w, ctx, p, input);
        turns = turns + 1;
    }
    turns
}

} // verus!
