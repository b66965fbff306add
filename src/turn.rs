//! One entity's turn: cleanup of the dead, sliding, the program step, and
//! what moving onto a tile sets off, including revealing a room.

use vstd::prelude::*;
use crate::attacks::AtkPat;
use crate::engine::{MAX_JUMPS, Outcome, all_cmds_wf, appended, resolve, resolves};
use crate::entity::{ActionType, En, Special};
use crate::point::{Point, adjacent8, get_all_adjacent_diagonal};
use crate::vfx::Glyph;
use crate::world::{Cmd, GameContext, StepEffect, World};

verus! {

/// Number of `false` entries.
pub open spec fn count_false(s: Seq<bool>) -> nat
    decreases s.len(),
{
    if s.len() == 0 {
        0
    } else {
        count_false(s.drop_last()) + if s.last() {
            0nat
        } else {
            1nat
        }
    }
}

pub(crate) proof fn lemma_count_false_update(s: Seq<bool>, i: int)
    requires
        0 <= i < s.len(),
        !s[i],
    ensures
        count_false(s.update(i, true)) + 1 == count_false(s),
    decreases s.len(),
{
    let t = s.update(i, true);
    if i == s.len() - 1 {
        assert(t.drop_last() =~= s.drop_last());
    } else {
        assert(t.drop_last() =~= s.drop_last().update(i, true));
        lemma_count_false_update(s.drop_last(), i);
    }
}

pub(crate) proof fn lemma_count_false_all(n: nat)
    ensures
        count_false(Seq::new(n, |_i: int| false)) == n,
    decreases n,
{
    if n > 0 {
        assert(Seq::new(n, |_i: int| false).drop_last() =~= Seq::new((n - 1) as nat, |_i: int| false));
        lemma_count_false_all((n - 1) as nat);
    }
}

/// A sentry that holds a door shut while its room has enemies.
pub fn sentry() -> (r: En)
    ensures
        r.wf(),
        r.special == Special::WallSentry,
        !r.is_player,
        !r.dormant,
        r.hp.value_spec() == 1,
{
    En::new(1, false, 255, Glyph::plain('x'), Special::WallSentry, Vec::new(), AtkPat::empty(), false)
}

/// `c` spawns a sentry at `at`.
pub open spec fn is_sentry_spawn(c: Cmd, at: Point) -> bool {
    match c {
        Cmd::Spawn { at: a, en } => a == at && en.special == Special::WallSentry,
        _ => false,
    }
}

/// What revealing a room found.
pub struct Reveal {
    /// Number of dormant enemies woken.
    pub woken: usize,
    /// Door cells met on the room's boundary.
    pub doors: Vec<Point>,
}

/// The flood fill passes through `c`: an open tile that is not a door.
pub open spec fn expandable(w: World, c: Point) -> bool {
    &&& w.tile_at(c) is Some
    &&& !w.tile_at(c)->Some_0.blocking
    &&& w.tile_at(c)->Some_0.door is None
}

/// `cmds` reveal the tile at `c`.
pub open spec fn reveals(cmds: Seq<Cmd>, c: Point) -> bool {
    cmds.contains(Cmd::Reveal { at: c })
}

/// The entity at `c` is a dormant enemy.
pub open spec fn sleeper_at(w: World, c: Point) -> bool {
    w.ent_at(c) is Some && w.ent_at(c)->Some_0.dormant && !w.ent_at(c)->Some_0.is_player
}

/// Number of `Wake` commands.
pub open spec fn count_wakes(s: Seq<Cmd>) -> nat
    decreases s.len(),
{
    if s.len() == 0 {
        0
    } else {
        count_wakes(s.drop_last()) + if s.last() is Wake {
            1nat
        } else {
            0nat
        }
    }
}

proof fn lemma_spawns_only(s: Seq<Cmd>, t: Seq<Cmd>)
    requires
        forall|k: int| 0 <= k < t.len() ==> (#[trigger] t[k]) is Spawn,
    ensures
        count_wakes(s + t) == count_wakes(s),
        forall|m: int| 0 <= m < (s + t).len() && ((s + t)[m] is Wake) ==> m < s.len() && #[trigger] (s + t)[m] == s[m],
        forall|c: Point| #[trigger] reveals(s + t, c) <==> reveals(s, c),
        forall|x: Cmd| #[trigger] s.contains(x) ==> (s + t).contains(x),
    decreases t.len(),
{
    assert forall|m: int| 0 <= m < (s + t).len() && ((s + t)[m] is Wake) implies m < s.len() && #[trigger] (s + t)[m] == s[m] by {
        if m >= s.len() {
            assert((s + t)[m] == t[m - s.len()]);
        }
    }
    if t.len() > 0 {
        let t2 = t.drop_last();
        lemma_spawns_only(s, t2);
        assert((s + t).drop_last() =~= s + t2);
        assert((s + t).last() == t[t.len() - 1]);
        assert forall|c: Point| #[trigger] reveals(s + t, c) implies reveals(s + t2, c) by {
            let j = choose|j: int| 0 <= j < (s + t).len() && (s + t)[j] == (Cmd::Reveal { at: c });
            assert(j < (s + t2).len());
            assert((s + t2)[j] == (Cmd::Reveal { at: c }));
        }
        assert forall|c: Point| #[trigger] reveals(s + t2, c) implies reveals(s + t, c) by {
            let j = choose|j: int| 0 <= j < (s + t2).len() && (s + t2)[j] == (Cmd::Reveal { at: c });
            assert((s + t)[j] == (Cmd::Reveal { at: c }));
        }
        assert forall|x: Cmd| #[trigger] s.contains(x) implies (s + t).contains(x) by {
            let j = choose|j: int| 0 <= j < s.len() && s[j] == x;
            assert((s + t)[j] == x);
        }
    } else {
        assert(s + t =~= s);
    }
}

proof fn lemma_skip_push(q: Seq<Cmd>, base: int, x: Cmd)
    requires
        0 <= base <= q.len(),
    ensures
        q.push(x).skip(base) == q.skip(base).push(x),
{
    assert(q.push(x).skip(base) =~= q.skip(base).push(x));
}

/// Reveals the room entered at `start` by a flood fill over king-move
/// neighbours. The fill reveals `start` and, from every open tile that is not
/// a door, each neighbour on the grid; it does not pass through walls or
/// doors. Each dormant enemy on a revealed tile that is not a door is woken
/// (marked as having acted), and every revealed door is recorded. Woken
/// enemies are added to the count of enemies remaining. When some enemy was
/// woken and more than one door was met, a sentry is spawned on each door.
pub fn reveal_room(w: &World, ctx: &mut GameContext, start: Point, q: &mut Vec<Cmd>) -> (r: Reveal)
    requires
        w.wf(),
    ensures
        appended(old(q)@, final(q)@),
        ({
            let cmds = final(q)@.skip(old(q)@.len() as int);
            &&& w.in_bounds(start) ==> reveals(cmds, start)
            &&& forall|c: Point| #[trigger] reveals(cmds, c) ==> w.in_bounds(c)
            &&& forall|c: Point, k: int|
                reveals(cmds, c) && expandable(*w, c) && 0 <= k < 8 && w.in_bounds(#[trigger] c.plus(adjacent8()[k]))
                    ==> reveals(cmds, c.plus(adjacent8()[k]))
            &&& forall|c: Point|
                #[trigger] reveals(cmds, c) && w.tile_at(c)->Some_0.door is None && sleeper_at(*w, c)
                    ==> cmds.contains(Cmd::Wake { at: c })
            &&& forall|c: Point|
                #[trigger] reveals(cmds, c) && w.tile_at(c)->Some_0.door is Some ==> r.doors@.contains(c)
            &&& r.woken == count_wakes(cmds)
            &&& forall|m: int| 0 <= m < cmds.len() && (#[trigger] cmds[m]) is Wake ==> sleeper_at(*w, cmds[m]->Wake_at)
        }),
        final(ctx).enemies_remaining == if old(ctx).enemies_remaining + r.woken > usize::MAX {
            usize::MAX as int
        } else {
            old(ctx).enemies_remaining + r.woken
        },
        final(ctx).player == old(ctx).player,
        final(ctx).dead == old(ctx).dead,
        final(ctx).global_time == old(ctx).global_time,
        final(ctx).keys == old(ctx).keys,
        final(ctx).dmg_dealt == old(ctx).dmg_dealt,
        final(ctx).exit_reached == old(ctx).exit_reached,
        final(ctx).no_clip == old(ctx).no_clip,
        final(ctx).door_glyph == old(ctx).door_glyph,
        forall|k: int|
            0 <= k < r.doors@.len() ==> w.tile_at(#[trigger] r.doors@[k]) is Some && w.tile_at(
                r.doors@[k],
            )->Some_0.door is Some,
        r.woken > 0 && r.doors@.len() > 1 ==> final(q)@.len() >= old(q)@.len() + r.doors@.len()
            && forall|k: int|
            0 <= k < r.doors@.len() ==> is_sentry_spawn(
                final(q)@[final(q)@.len() - r.doors@.len() + k],
                #[trigger] r.doors@[k],
            ),
{
    proof {
        crate::engine::lemma_appended_refl(q@);
    }
    let ghost base = q@.len() as int;
    let mut doors: Vec<Point> = Vec::new();
    let mut woken: usize = 0;
    let n = w.tiles.len();
    let mut visited: Vec<bool> = Vec::new();
    let mut z: usize = 0;
    while z < n
        invariant
            z <= n,
            visited@ == Seq::new(z as nat, |_i: int| false),
        decreases n - z,
    {
        visited.push(false);
        z = z + 1;
        assert(visited@ =~= Seq::new(z as nat, |_i: int| false));
    }
    proof {
        lemma_count_false_all(n as nat);
    }
    let mut unmarked: usize = n;
    let mut stack: Vec<Point> = Vec::new();
    match w.index_of(start) {
        Some(i) => {
            proof {
                lemma_count_false_update(visited@, i as int);
            }
            visited.set(i, true);
            unmarked = unmarked - 1;
            stack.push(start);
        },
        None => {},
    }
    assert(q@.skip(base) =~= Seq::<Cmd>::empty());
    assert forall|c: Point| #[trigger] w.in_bounds(c) && visited@[w.idx(c)] implies stack@.contains(c)
        || reveals(q@.skip(base), c) by {
        crate::world::lemma_grid_idx(w.width as int, w.height as int, c);
        if w.in_bounds(start) {
            crate::world::lemma_grid_idx(w.width as int, w.height as int, start);
            if w.idx(c) == w.idx(start) {
                lemma_idx_inj(*w, c, start);
                assert(stack@[0] == start);
            }
        }
    }
    assert(w.in_bounds(start) ==> visited@[w.idx(start)]) by {
        if w.in_bounds(start) {
            crate::world::lemma_grid_idx(w.width as int, w.height as int, start);
        }
    }
    let adj = get_all_adjacent_diagonal();
    while stack.len() > 0
        invariant
            w.wf(),
            adj@ == adjacent8(),
            visited@.len() == n,
            n == w.tiles@.len(),
            base == old(q)@.len(),
            unmarked == count_false(visited@),
            woken + stack@.len() + unmarked <= n,
            appended(old(q)@, q@),
            forall|k: int| 0 <= k < stack@.len() ==> w.in_bounds(#[trigger] stack@[k]) && visited@[w.idx(stack@[k])],
            forall|c: Point|
                #[trigger] w.in_bounds(c) && visited@[w.idx(c)] ==> stack@.contains(c) || reveals(q@.skip(base), c),
            w.in_bounds(start) ==> visited@[w.idx(start)],
            forall|c: Point| #[trigger] reveals(q@.skip(base), c) ==> w.in_bounds(c) && visited@[w.idx(c)],
            forall|c: Point, k: int|
                reveals(q@.skip(base), c) && expandable(*w, c) && 0 <= k < 8 && w.in_bounds(
                    #[trigger] c.plus(adjacent8()[k]),
                ) ==> visited@[w.idx(c.plus(adjacent8()[k]))],
            forall|c: Point|
                #[trigger] reveals(q@.skip(base), c) && w.tile_at(c)->Some_0.door is None && sleeper_at(*w, c)
                    ==> q@.skip(base).contains(Cmd::Wake { at: c }),
            forall|c: Point|
                #[trigger] reveals(q@.skip(base), c) && w.tile_at(c)->Some_0.door is Some ==> doors@.contains(c),
            woken == count_wakes(q@.skip(base)),
            forall|m: int| 0 <= m < q@.skip(base).len() && (#[trigger] q@.skip(base)[m]) is Wake ==> sleeper_at(*w, q@.skip(base)[m]->Wake_at),
            forall|k: int|
                0 <= k < doors@.len() ==> w.tile_at(#[trigger] doors@[k]) is Some && w.tile_at(
                    doors@[k],
                )->Some_0.door is Some,
        decreases 2 * unmarked + stack@.len(),
    {
        let ghost m0 = 2 * unmarked + stack@.len();
        let ghost stack0 = stack@;
        let ghost q_in = q@;
        let ghost visited0 = visited@;
        let ghost doors0 = doors@;
        let c = stack.pop().unwrap();
        assert(stack0 == stack@.push(c));
        assert(w.in_bounds(c)) by {
            assert(stack0[stack0.len() - 1] == c);
        }
        proof {
            crate::world::lemma_grid_idx(w.width as int, w.height as int, c);
            crate::engine::lemma_grid_bounded(*w, c);
        }
        assert(visited@[w.idx(c)]) by {
            assert(stack0[stack0.len() - 1] == c);
        }
        let t = w.get_tile(c).unwrap();
        if t.door.is_none() {
            if let Some(e) = w.get_ent(c) {
                if e.dormant && !e.is_player {
                    let ghost qa = q@;
                    crate::engine::push_cmd(q, Cmd::Wake { at: c });
                    proof {
                        crate::engine::lemma_appended_trans(old(q)@, qa, q@);
                        lemma_skip_push(qa, base, Cmd::Wake { at: c });
                        assert(qa.skip(base).push(Cmd::Wake { at: c }).drop_last() =~= qa.skip(base));
                        assert(count_wakes(q@.skip(base)) == count_wakes(qa.skip(base)) + 1);
                        assert(sleeper_at(*w, c));
                    }
                    woken = woken + 1;
                }
            }
        } else {
            doors.push(c);
        }
        let ghost q_mid = q@;
        assert forall|x: Cmd| #[trigger] q_in.skip(base).contains(x) implies q_mid.skip(base).contains(x) by {
            let j = choose|j: int| 0 <= j < q_in.skip(base).len() && q_in.skip(base)[j] == x;
            if q_mid.len() > q_in.len() {
                assert(q_mid.skip(base) == q_in.skip(base).push(Cmd::Wake { at: c }));
                assert(q_mid.skip(base)[j] == x);
            } else {
                assert(q_mid == q_in);
            }
        }
        assert forall|c2: Point|
            #[trigger] w.in_bounds(c2) && visited@[w.idx(c2)] implies stack@.contains(c2) || c2 == c || reveals(
                q_in.skip(base),
                c2,
            ) by {
            if stack0.contains(c2) && c2 != c {
                let j = choose|j: int| 0 <= j < stack0.len() && stack0[j] == c2;
                assert(j < stack@.len());
                assert(stack@[j] == c2);
            }
        }
        let ghost sp = stack@;
        if !t.blocking && t.door.is_none() {
            let mut k: usize = 0;
            while k < adj.len()
                invariant
                    w.wf(),
                    adj@ == adjacent8(),
                    c.bounded(),
                    w.in_bounds(c),
                    visited@.len() == n,
                    n == w.tiles@.len(),
                    unmarked == count_false(visited@),
                    woken + stack@.len() + unmarked <= n,
                    k <= adj@.len(),
                    2 * unmarked + stack@.len() < m0,
                    forall|m: int| 0 <= m < stack@.len() ==> w.in_bounds(#[trigger] stack@[m]) && visited@[w.idx(stack@[m])],
                    forall|j: int| 0 <= j < n && visited0[j] ==> #[trigger] visited@[j],
                    forall|c2: Point|
                        #[trigger] w.in_bounds(c2) && visited@[w.idx(c2)] ==> stack@.contains(c2) || c2 == c
                            || reveals(q_in.skip(base), c2),
                    forall|k2: int|
                        0 <= k2 < k && w.in_bounds(#[trigger] c.plus(adjacent8()[k2])) ==> visited@[w.idx(
                            c.plus(adjacent8()[k2]),
                        )],
                decreases adj@.len() - k,
            {
                assert(adj@[k as int].small());
                let nb = c.add(adj[k]);
                match w.index_of(nb) {
                    Some(i) => {
                        if !visited[i] {
                            proof {
                                lemma_count_false_update(visited@, i as int);
                            }
                            let ghost vb = visited@;
                            let ghost sb = stack@;
                            visited.set(i, true);
                            unmarked = unmarked - 1;
                            stack.push(nb);
                            proof {
                                assert forall|k2: int|
                                    0 <= k2 < k + 1 && w.in_bounds(#[trigger] c.plus(adjacent8()[k2])) implies visited@[w.idx(
                                        c.plus(adjacent8()[k2]),
                                    )] by {
                                    crate::world::lemma_grid_idx(w.width as int, w.height as int, c.plus(adjacent8()[k2]));
                                }
                                assert forall|c2: Point|
                                    #[trigger] w.in_bounds(c2) && visited@[w.idx(c2)] implies stack@.contains(c2)
                                        || c2 == c || reveals(q_in.skip(base), c2) by {
                                    crate::world::lemma_grid_idx(w.width as int, w.height as int, c2);
                                    if w.idx(c2) == i as int {
                                        lemma_idx_inj(*w, c2, nb);
                                        assert(stack@[stack@.len() - 1] == nb);
                                    } else {
                                        assert(vb[w.idx(c2)]);
                                        if sb.contains(c2) {
                                            let j = choose|j: int| 0 <= j < sb.len() && sb[j] == c2;
                                            assert(stack@[j] == c2);
                                        }
                                    }
                                }
                                assert forall|m: int| 0 <= m < stack@.len() implies w.in_bounds(#[trigger] stack@[m])
                                    && visited@[w.idx(stack@[m])] by {
                                    if m < sb.len() {
                                        assert(stack@[m] == sb[m]);
                                        crate::world::lemma_grid_idx(w.width as int, w.height as int, sb[m]);
                                    } else {
                                        assert(stack@[m] == nb);
                                    }
                                }
                            }
                        }
                    },
                    None => {},
                }
                proof {
                    if w.in_bounds(nb) {
                        crate::world::lemma_grid_idx(w.width as int, w.height as int, nb);
                    }
                }
                k = k + 1;
            }
        }
        assert(forall|j: int| 0 <= j < n && visited0[j] ==> #[trigger] visited@[j]);
        let ghost q_r = q@;
        crate::engine::push_cmd(q, Cmd::Reveal { at: c });
        proof {
            crate::engine::lemma_appended_trans(old(q)@, q_r, q@);
            lemma_skip_push(q_r, base, Cmd::Reveal { at: c });
            let s0 = q_r.skip(base);
            let s1 = q@.skip(base);
            assert(s1 == s0.push(Cmd::Reveal { at: c }));
            assert(s1.drop_last() =~= s0);
            assert(s1[s1.len() - 1] == (Cmd::Reveal { at: c }));
            assert(count_wakes(s1) == count_wakes(s0));
            assert forall|m: int| 0 <= m < s1.len() && (#[trigger] s1[m]) is Wake implies sleeper_at(*w, s1[m]->Wake_at) by {
                assert(m < s0.len());
                assert(s1[m] == s0[m]);
                if q_mid.len() > q_in.len() {
                    assert(s0 == q_in.skip(base).push(Cmd::Wake { at: c }));
                    if m < q_in.skip(base).len() {
                        assert(s0[m] == q_in.skip(base)[m]);
                    }
                } else {
                    assert(s0 == q_in.skip(base));
                }
            }
            assert forall|x: Cmd| #[trigger] s0.contains(x) implies s1.contains(x) by {
                let j = choose|j: int| 0 <= j < s0.len() && s0[j] == x;
                assert(s1[j] == x);
            }
            assert(q_r == q_mid);
            assert forall|k: int| 0 <= k < doors@.len() implies w.tile_at(#[trigger] doors@[k]) is Some
                && w.tile_at(doors@[k])->Some_0.door is Some by {}
            if w.in_bounds(start) {
                crate::world::lemma_grid_idx(w.width as int, w.height as int, start);
            }
            assert forall|c2: Point| #[trigger] reveals(s1, c2) && c2 != c implies reveals(q_in.skip(base), c2) by {
                let j = choose|j: int| 0 <= j < s1.len() && s1[j] == (Cmd::Reveal { at: c2 });
                assert(s0[j] == (Cmd::Reveal { at: c2 }));
                if q_mid.len() > q_in.len() {
                    assert(s0 == q_in.skip(base).push(Cmd::Wake { at: c }));
                }
                assert(q_in.skip(base)[j] == (Cmd::Reveal { at: c2 }));
            }
            assert forall|c2: Point|
                #[trigger] reveals(s1, c2) && w.tile_at(c2)->Some_0.door is None && sleeper_at(*w, c2)
                    implies s1.contains(Cmd::Wake { at: c2 }) by {
                if c2 == c {
                    crate::world::lemma_grid_idx(w.width as int, w.height as int, c);
                    assert(q_mid.skip(base) == q_in.skip(base).push(Cmd::Wake { at: c }));
                    assert(q_mid.skip(base)[q_mid.skip(base).len() - 1] == (Cmd::Wake { at: c }));
                    assert(s0.contains(Cmd::Wake { at: c }));
                } else {
                    assert(q_in.skip(base).contains(Cmd::Wake { at: c2 }));
                }
            }
            assert forall|c2: Point|
                #[trigger] reveals(s1, c2) && w.tile_at(c2)->Some_0.door is Some implies doors@.contains(c2) by {
                if c2 == c {
                    assert(doors@[doors@.len() - 1] == c);
                } else {
                    assert(doors0.contains(c2));
                    let j = choose|j: int| 0 <= j < doors0.len() && doors0[j] == c2;
                    assert(doors@[j] == c2);
                }
            }
            assert forall|c2: Point| #[trigger] reveals(s1, c2) implies w.in_bounds(c2) && visited@[w.idx(c2)] by {
                if c2 != c {
                    let j = choose|j: int| 0 <= j < s1.len() && s1[j] == (Cmd::Reveal { at: c2 });
                    assert(s0[j] == (Cmd::Reveal { at: c2 }));
                    if q_mid.len() > q_in.len() {
                        assert(s0 == q_in.skip(base).push(Cmd::Wake { at: c }));
                        assert(q_in.skip(base)[j] == (Cmd::Reveal { at: c2 }));
                    } else {
                        assert(q_in.skip(base)[j] == (Cmd::Reveal { at: c2 }));
                    }
                    assert(reveals(q_in.skip(base), c2));
                    crate::world::lemma_grid_idx(w.width as int, w.height as int, c2);
                }
            }
            assert forall|c2: Point, k: int|
                reveals(s1, c2) && expandable(*w, c2) && 0 <= k < 8 && w.in_bounds(
                    #[trigger] c2.plus(adjacent8()[k]),
                ) implies visited@[w.idx(c2.plus(adjacent8()[k]))] by {
                crate::world::lemma_grid_idx(w.width as int, w.height as int, c2.plus(adjacent8()[k]));
                if c2 != c {
                    let j = choose|j: int| 0 <= j < s1.len() && s1[j] == (Cmd::Reveal { at: c2 });
                    assert(s0[j] == (Cmd::Reveal { at: c2 }));
                    if q_mid.len() > q_in.len() {
                        assert(s0 == q_in.skip(base).push(Cmd::Wake { at: c }));
                    }
                    assert(q_in.skip(base)[j] == (Cmd::Reveal { at: c2 }));
                    assert(reveals(q_in.skip(base), c2));
                }
            }
        }
    }
    proof {
        let cmds = q@.skip(base);
        assert forall|c: Point, k: int|
            reveals(cmds, c) && expandable(*w, c) && 0 <= k < 8 && w.in_bounds(#[trigger] c.plus(adjacent8()[k]))
                implies reveals(cmds, c.plus(adjacent8()[k])) by {
            let nb = c.plus(adjacent8()[k]);
            assert(visited@[w.idx(nb)]);
            assert(!stack@.contains(nb));
        }
        if w.in_bounds(start) {
            assert(visited@[w.idx(start)]);
            assert(!stack@.contains(start));
        }
    }
    let ghost q_fill = q@;
    ctx.enemies_remaining = ctx.enemies_remaining.saturating_add(woken);
    if woken > 0 && doors.len() > 1 {
        let ghost q_before = q@;
        let mut d: usize = 0;
        while d < doors.len()
            invariant
                d <= doors@.len(),
                appended(old(q)@, q@),
                q@.len() == q_before.len() + d,
                q_before.len() >= old(q)@.len(),
                q_before == q_fill,
                q@.take(q_fill.len() as int) == q_fill,
                forall|k: int| q_fill.len() <= k < q@.len() ==> (#[trigger] q@[k]) is Spawn,
                forall|k: int| 0 <= k < d ==> is_sentry_spawn(q@[q_before.len() + k], #[trigger] doors@[k]),
            decreases doors@.len() - d,
        {
            let ghost q2 = q@;
            let s = sentry();
            crate::engine::push_cmd(q, Cmd::Spawn { at: doors[d], en: s });
            proof {
                crate::engine::lemma_appended_trans(old(q)@, q2, q@);
                assert(q@.take(q_fill.len() as int) =~= q2.take(q_fill.len() as int));
                assert forall|k: int| q_fill.len() <= k < q@.len() implies (#[trigger] q@[k]) is Spawn by {
                    if k < q2.len() {
                        assert(q@[k] == q2[k]);
                    }
                }
                assert forall|k: int| 0 <= k < d + 1 implies is_sentry_spawn(q@[q_before.len() + k], #[trigger] doors@[k]) by {
                    if k < d {
                        assert(q@[q_before.len() + k] == q2[q_before.len() + k]);
                    }
                }
            }
            d = d + 1;
        }
    }
    proof {
        let t = q@.skip(q_fill.len() as int);
        let s0 = q_fill.skip(base);
        if q@.len() == q_fill.len() {
            assert(q@ == q_fill) by {
                assert(q@ =~= q@.take(q_fill.len() as int));
            }
        }
        assert(q@.take(q_fill.len() as int) == q_fill);
        assert forall|k: int| 0 <= k < t.len() implies (#[trigger] t[k]) is Spawn by {
            assert(t[k] == q@[k + q_fill.len()]);
        }
        assert(q@.skip(base) =~= s0 + t);
        lemma_spawns_only(s0, t);
        assert forall|m: int| 0 <= m < q@.skip(base).len() && (#[trigger] q@.skip(base)[m]) is Wake implies sleeper_at(*w, q@.skip(base)[m]->Wake_at) by {
            assert((s0 + t)[m] == s0[m]);
        }
    }
    Reveal { woken, doors }
}

/// `c` marks an entity other than the one at `skip` as not having acted.
pub open spec fn is_reset_for(w: World, skip: Point, c: Cmd) -> bool {
    match c {
        Cmd::SetActed { at, acted } => !acted && at != skip && w.ent_at(at) is Some,
        _ => false,
    }
}

pub(crate) proof fn lemma_idx_inj(w: World, a: Point, b: Point)
    requires
        w.in_bounds(a),
        w.in_bounds(b),
        w.idx(a) == w.idx(b),
    ensures
        a == b,
{
    let wd = w.width as int;
    if a.y < b.y {
        assert(a.y * wd + wd <= b.y * wd) by (nonlinear_arith)
            requires a.y < b.y, wd >= 0;
    } else if b.y < a.y {
        assert(b.y * wd + wd <= a.y * wd) by (nonlinear_arith)
            requires b.y < a.y, wd >= 0;
    }
}

proof fn lemma_appended_contains(a: Seq<Cmd>, b: Seq<Cmd>, x: Cmd)
    requires
        appended(a, b),
        a.contains(x),
    ensures
        b.contains(x),
{
    let j = choose|j: int| 0 <= j < a.len() && a[j] == x;
    assert(b.take(a.len() as int)[j] == b[j]);
}

proof fn lemma_push_keeps(q: Seq<Cmd>, c: Cmd, x: Cmd)
    requires
        q.contains(x),
    ensures
        q.push(c).contains(x),
{
    let j = choose|j: int| 0 <= j < q.len() && q[j] == x;
    assert(q.push(c)[j] == x);
}

/// Queues "not yet acted" for every entity but the one at `skip`, and nothing else.
pub fn reset_acted(w: &World, skip: Point, q: &mut Vec<Cmd>)
    requires
        w.wf(),
    ensures
        appended(old(q)@, final(q)@),
        forall|k: int| old(q)@.len() <= k < final(q)@.len() ==> is_reset_for(*w, skip, #[trigger] final(q)@[k]),
        forall|p: Point|
            p != skip && #[trigger] w.ent_at(p) is Some ==> final(q)@.contains(Cmd::SetActed { at: p, acted: false }),
{
    proof {
        crate::engine::lemma_appended_refl(q@);
    }
    let mut y: usize = 0;
    while y < w.height
        invariant
            w.wf(),
            y <= w.height,
            appended(old(q)@, q@),
            forall|k: int| old(q)@.len() <= k < q@.len() ==> is_reset_for(*w, skip, #[trigger] q@[k]),
            forall|p: Point|
                p != skip && #[trigger] w.ent_at(p) is Some && p.y < y ==> q@.contains(Cmd::SetActed { at: p, acted: false }),
        decreases w.height - y,
    {
        let mut x: usize = 0;
        while x < w.width
            invariant
                w.wf(),
                y < w.height,
                x <= w.width,
                appended(old(q)@, q@),
                forall|k: int| old(q)@.len() <= k < q@.len() ==> is_reset_for(*w, skip, #[trigger] q@[k]),
                forall|p: Point|
                    p != skip && #[trigger] w.ent_at(p) is Some && (p.y < y || (p.y == y && p.x < x))
                        ==> q@.contains(Cmd::SetActed { at: p, acted: false }),
            decreases w.width - x,
        {
            let p = Point::new(x as i32, y as i32);
            if p != skip && w.get_ent(p).is_some() {
                let ghost q0 = q@;
                let c = Cmd::SetActed { at: p, acted: false };
                crate::engine::push_cmd(q, c);
                proof {
                    crate::engine::lemma_appended_trans(old(q)@, q0, q@);
                    assert forall|p2: Point|
                        p2 != skip && #[trigger] w.ent_at(p2) is Some && (p2.y < y || (p2.y == y
                            && p2.x < x + 1)) implies q@.contains(Cmd::SetActed { at: p2, acted: false }) by {
                        if p2 == p {
                            assert(q@[q@.len() - 1] == (Cmd::SetActed { at: p, acted: false }));
                        } else {
                            lemma_push_keeps(q0, Cmd::SetActed { at: p, acted: false }, Cmd::SetActed { at: p2, acted: false });
                        }
                    }
                    assert forall|k: int| old(q)@.len() <= k < q@.len() implies is_reset_for(*w, skip, #[trigger] q@[k]) by {
                        if k < q0.len() {
                            assert(q@[k] == q0[k]);
                        }
                    }
                }
            }
            x = x + 1;
        }
        y = y + 1;
    }
    assert forall|p: Point| p != skip && #[trigger] w.ent_at(p) is Some implies q@.contains(
        Cmd::SetActed { at: p, acted: false },
    ) by {
        assert(w.in_bounds(p));
    }
}

/// The commands that the step effect of the tile at `nx` queues for `en`.
pub open spec fn step_cmds(w: World, ctx: GameContext, en: En, nx: Point) -> Seq<Cmd> {
    match w.tile_at(nx) {
        Some(t) => match t.step_effect {
            Some(StepEffect::Conveyor(d)) => seq![Cmd::SetVel { at: nx, vel: Some(d) }],
            Some(StepEffect::Exit) => if en.is_player && ctx.enemies_remaining == 0 {
                seq![Cmd::ReachExit]
            } else {
                seq![]
            },
            Some(StepEffect::Key(k)) => if en.is_player {
                seq![Cmd::CollectKey { at: nx, key: k }]
            } else {
                seq![]
            },
            None => seq![],
        },
        None => seq![],
    }
}

/// The velocity that a slippery tile at `nx` gives after a move from `pos`.
pub open spec fn slip_cmds(w: World, pos: Point, nx: Point) -> Seq<Cmd> {
    if w.tile_at(nx) is Some && w.tile_at(nx)->Some_0.slippery {
        seq![Cmd::SetVel { at: nx, vel: Some(nx.minus(pos)) }]
    } else {
        seq![]
    }
}

/// What any move from `pos` to `nx` queues first: the move, then the step
/// effect's commands, then the velocity of a slide.
pub open spec fn movement_cmds(w: World, ctx: GameContext, en: En, pos: Point, nx: Point) -> Seq<Cmd> {
    seq![Cmd::MoveTo { from: pos, to: nx }] + step_cmds(w, ctx, en, nx) + slip_cmds(w, pos, nx)
}

/// Queues what moving from `pos` to `nx` sets off: the move itself, the
/// destination's step effect, sliding on a slippery destination, and for the
/// player the position cache, fresh turns for everyone else and, when leaving
/// a door, revealing the room entered.
pub fn queue_movement(w: &World, ctx: &mut GameContext, en: &En, pos: Point, nx: Point, q: &mut Vec<Cmd>)
    requires
        w.wf(),
        pos.bounded(),
        nx.bounded(),
    ensures
        appended(old(q)@, final(q)@),
        final(q)@.len() > old(q)@.len(),
        final(q)@[old(q)@.len() as int] == (Cmd::MoveTo { from: pos, to: nx }),
        final(q)@.len() >= old(q)@.len() + movement_cmds(*w, *old(ctx), *en, pos, nx).len(),
        final(q)@.subrange(
            old(q)@.len() as int,
            old(q)@.len() + movement_cmds(*w, *old(ctx), *en, pos, nx).len() as int,
        ) == movement_cmds(*w, *old(ctx), *en, pos, nx),
        !en.is_player ==> final(q)@ == old(q)@ + movement_cmds(*w, *old(ctx), *en, pos, nx),
        w.tile_at(nx) is Some && w.tile_at(nx)->Some_0.slippery ==> final(q)@.contains(
            Cmd::SetVel { at: nx, vel: Some(nx.minus(pos)) },
        ),
        final(ctx).player == if en.is_player {
            nx
        } else {
            old(ctx).player
        },
        final(ctx).dead == old(ctx).dead,
        final(ctx).global_time == old(ctx).global_time,
        final(ctx).enemies_remaining >= old(ctx).enemies_remaining,
{
    let ghost q_start = q@;
    crate::engine::push_cmd(q, Cmd::MoveTo { from: pos, to: nx });
    let ghost q_moved = q@;
    proof {
        crate::engine::lemma_appended_refl(q@);
    }
    if let Some(t) = w.get_tile(nx) {
        let c = match t.step_effect {
            Some(StepEffect::Conveyor(d)) => Some(Cmd::SetVel { at: nx, vel: Some(d) }),
            Some(StepEffect::Exit) => if en.is_player && ctx.enemies_remaining == 0 {
                Some(Cmd::ReachExit)
            } else {
                None
            },
            Some(StepEffect::Key(k)) => if en.is_player {
                Some(Cmd::CollectKey { at: nx, key: k })
            } else {
                None
            },
            None => None,
        };
        if let Some(c) = c {
            let ghost qa = q@;
            crate::engine::push_cmd(q, c);
            proof {
                crate::engine::lemma_appended_trans(q_moved, qa, q@);
            }
        }
        if t.slippery {
            let ghost q1 = q@;
            let d = nx.sub(pos);
            crate::engine::push_cmd(q, Cmd::SetVel { at: nx, vel: Some(d) });
            proof {
                crate::engine::lemma_appended_trans(q_moved, q1, q@);
                assert(q@[q@.len() - 1] == (Cmd::SetVel { at: nx, vel: Some(nx.minus(pos)) }));
            }
        }
    }
    let ghost q_fx = q@;
    let ghost mc = movement_cmds(*w, *old(ctx), *en, pos, nx);
    assert(q_fx =~= q_start + mc);
    let ghost slip_ok = w.tile_at(nx) is Some && w.tile_at(nx)->Some_0.slippery ==> q_fx.contains(
        Cmd::SetVel { at: nx, vel: Some(nx.minus(pos)) },
    );
    assert(slip_ok);
    if en.is_player {
        ctx.player = nx;
        reset_acted(w, pos, q);
        proof {
            crate::engine::lemma_appended_trans(q_moved, q_fx, q@);
        }
        if let Some(src) = w.get_tile(pos) {
            if src.door.is_some() {
                let ghost q2 = q@;
                assert(appended(q_fx, q2));
                let _ = reveal_room(w, ctx, nx, q);
                proof {
                    crate::engine::lemma_appended_trans(q_moved, q2, q@);
                    crate::engine::lemma_appended_trans(q_fx, q2, q@);
                }
            }
        }
    } else {
        proof {
            crate::engine::lemma_appended_refl(q@);
        }
    }
    proof {
        crate::engine::lemma_appended_trans(q_start, q_moved, q@);
        assert(q@.take(q_moved.len() as int) == q_moved);
        assert(q_moved[q_start.len() as int] == (Cmd::MoveTo { from: pos, to: nx }));
        assert(q@[q_start.len() as int] == q@.take(q_moved.len() as int)[q_start.len() as int]);
        if !en.is_player {
            crate::engine::lemma_appended_refl(q_fx);
        }
        assert(appended(q_fx, q@));
        assert(q@.take(q_fx.len() as int) == q_fx);
        assert forall|i: int| 0 <= i < mc.len() implies q@[q_start.len() + i] == mc[i] by {
            assert(q@.take(q_fx.len() as int)[q_start.len() + i] == q@[q_start.len() + i]);
            assert(q_fx[q_start.len() + i] == mc[i]);
        }
        assert(q@.subrange(q_start.len() as int, q_start.len() + mc.len() as int) =~= mc);
    }
}

/// The cell that a slide with velocity `v` from `pos` reaches, when it can move.
pub open spec fn slide_target(w: World, pos: Point, v: Point) -> Option<Point> {
    if pos.can_add(v) && w.free_spec(pos.plus(v)) {
        Some(pos.plus(v))
    } else {
        None
    }
}

/// A slide ends when it cannot move or moves onto a tile that is not slippery.
pub open spec fn slide_stops(w: World, pos: Point, v: Point) -> bool {
    match slide_target(w, pos, v) {
        Some(t) => !w.tile_at(t)->Some_0.slippery,
        None => true,
    }
}

/// The action that `en` runs this turn: `input` for the player, else the
/// action under the program cursor, or waiting when the program has none.
pub open spec fn current_action(en: En, input: ActionType) -> ActionType {
    if en.is_player {
        input
    } else if en.cursor < en.actions@.len() {
        en.actions@[en.cursor as int]
    } else {
        ActionType::Wait
    }
}

/// What one turn of the entity at `pos` queues (`cmds`) and reports (`res`),
/// and how it leaves the context (`c0` before, `c1` after); see [`take_turn`].
pub open spec fn turn_result(
    w: World,
    c0: GameContext,
    c1: GameContext,
    pos: Point,
    input: ActionType,
    cmds: Seq<Cmd>,
    res: Option<Outcome>,
) -> bool {
        let en = w.ent_at(pos)->Some_0;
        if en.is_dead_spec() && en.special == Special::Not {
            &&& cmds == seq![Cmd::Delete { at: pos }]
            &&& res is None
            &&& en.is_player ==> c1.dead
            &&& !en.is_player ==> c1.enemies_remaining == if c0.enemies_remaining == 0 {
                0
            } else {
                c0.enemies_remaining - 1
            }
        } else if en.special == Special::WallSentry {
            &&& cmds == seq![Cmd::Delete { at: pos }]
            &&& res is None
            &&& crate::world::ctx_same(c0, c1)
        } else if en.vel is Some {
            let v = en.vel->Some_0;
            let stop = slide_stops(w, pos, v);
            let k: int = if stop { 1 } else { 0 };
            &&& res is None
            &&& stop ==> cmds[0] == (Cmd::SetVel { at: pos, vel: None })
            &&& cmds[k] == (Cmd::SetActed { at: pos, acted: true })
            &&& slide_target(w, pos, v) is Some ==> cmds[k + 1] == (Cmd::MoveTo {
                from: pos,
                to: slide_target(w, pos, v)->Some_0,
            })
            &&& slide_target(w, pos, v) is None ==> cmds.len() == k + 1
            &&& !en.is_player ==> cmds == (if stop {
                seq![Cmd::SetVel { at: pos, vel: None }]
            } else {
                Seq::<Cmd>::empty()
            }) + seq![Cmd::SetActed { at: pos, acted: true }] + match slide_target(w, pos, v) {
                Some(nx) => movement_cmds(w, c0, en, pos, nx),
                None => Seq::<Cmd>::empty(),
            }
        } else {
            let out = res->Some_0;
            &&& res is Some
            &&& exists|n: int|
                0 <= n <= cmds.len() && #[trigger] resolves(
                    w,
                    c0,
                    en,
                    current_action(en, input),
                    pos,
                    MAX_JUMPS as nat,
                    out,
                    cmds.take(n),
                ) && (!out.acted && out.pos == pos ==> n == cmds.len())
            &&& out.acted && !en.is_player ==> cmds.contains(Cmd::SetActed { at: pos, acted: true })
            &&& out.acted && !en.is_player ==> cmds.contains(Cmd::SetCursor {
                at: pos,
                cursor: match out.cursor {
                    Some(c) => c,
                    None => crate::engine::next_cursor(en.cursor as int, en.actions@.len() as int),
                },
            })
            &&& out.acted && en.is_player ==> c1.global_time == if c0.global_time == u32::MAX {
                u32::MAX
            } else {
                (c0.global_time + 1) as u32
            }
            &&& !out.acted ==> c1.global_time == c0.global_time
            &&& out.acted && en.is_player ==> forall|p: Point|
                p != pos && #[trigger] w.ent_at(p) is Some ==> cmds.contains(Cmd::SetActed { at: p, acted: false })
            &&& out.pos != pos ==> cmds.contains(Cmd::MoveTo { from: pos, to: out.pos })
        }
}

/// What one turn of the entity at `pos` queues. A dead ordinary entity is
/// deleted (the player's death is recorded, an enemy leaves the count of
/// enemies remaining); a sentry that gets a turn deletes itself. An entity
/// with a forced velocity slides instead of running its program: it moves when
/// the next cell is free, and the velocity clears when it cannot move or the
/// new tile is not slippery. Otherwise the current action is resolved; when it
/// takes the turn the player's turn counter advances and every other entity
/// may act again, while another entity is marked as having acted and its
/// cursor moves on (to the cursor a jump chose, else to the next action).
/// The outcome of the action is returned with the commands.
pub fn take_turn(w: &World, ctx: &mut GameContext, pos: Point, input: &ActionType) -> (r: (Vec<Cmd>, Option<Outcome>))
    requires
        w.wf(),
        w.ent_at(pos) is Some,
    ensures
        all_cmds_wf(r.0@),
        turn_result(*w, *old(ctx), *final(ctx), pos, *input, r.0@, r.1),
{
    let en = w.get_ent(pos).unwrap();
    proof {
        crate::world::lemma_grid_idx(w.width as int, w.height as int, pos);
        assert(w.ents@[w.idx(pos)] is Some);
    }
    assert(en.wf());
    proof {
        crate::engine::lemma_grid_bounded(*w, pos);
    }
    let mut q: Vec<Cmd> = Vec::new();
    if en.is_dead() && en.special == Special::Not {
        crate::engine::push_cmd(&mut q, Cmd::Delete { at: pos });
        if en.is_player {
            ctx.dead = true;
        } else {
            ctx.enemies_remaining = ctx.enemies_remaining.saturating_sub(1);
        }
        assert(q@ =~= seq![Cmd::Delete { at: pos }]);
        return (q, None);
    }
    if en.special == Special::WallSentry {
        crate::engine::push_cmd(&mut q, Cmd::Delete { at: pos });
        assert(q@ =~= seq![Cmd::Delete { at: pos }]);
        return (q, None);
    }
    if let Some(v) = en.vel {
        let mut target: Option<Point> = None;
        if let Some(nx) = pos.checked_add(v) {
            if w.is_free(nx) {
                target = Some(nx);
            }
        }
        let stop = match target {
            Some(nx) => !w.get_tile(nx).unwrap().slippery,
            None => true,
        };
        if stop {
            crate::engine::push_cmd(&mut q, Cmd::SetVel { at: pos, vel: None });
        } else if en.is_player {
            ctx.global_time = ctx.global_time.saturating_add(1);
        }
        crate::engine::push_cmd(&mut q, Cmd::SetActed { at: pos, acted: true });
        let ghost q0 = q@;
        let ghost k: int = if stop { 1 } else { 0 };
        assert(target == slide_target(*w, pos, v));
        assert(stop == slide_stops(*w, pos, v));
        assert(q0.len() == k + 1);
        assert(q0[k] == (Cmd::SetActed { at: pos, acted: true }));
        if let Some(nx) = target {
            proof {
                crate::engine::lemma_grid_bounded(*w, nx);
            }
            let ghost c_before = *ctx;
            queue_movement(w, ctx, en, pos, nx, &mut q);
            assert(q@.take(q0.len() as int) == q0);
            proof {
                if !en.is_player {
                    assert(c_before == *old(ctx));
                    let pre = (if stop {
                        seq![Cmd::SetVel { at: pos, vel: None }]
                    } else {
                        Seq::<Cmd>::empty()
                    }) + seq![Cmd::SetActed { at: pos, acted: true }];
                    assert(q0 =~= pre);
                }
            }
            assert(q@[k] == q@.take(q0.len() as int)[k]);
            assert(stop ==> q@[0] == q@.take(q0.len() as int)[0]);
        } else {
            proof {
                let pre = (if stop {
                    seq![Cmd::SetVel { at: pos, vel: None }]
                } else {
                    Seq::<Cmd>::empty()
                }) + seq![Cmd::SetActed { at: pos, acted: true }];
                assert(q@ =~= pre + Seq::<Cmd>::empty());
            }
        }
        return (q, None);
    }
    let wait = ActionType::Wait;
    let action = if en.is_player {
        input
    } else if en.cursor < en.actions.len() {
        &en.actions[en.cursor]
    } else {
        &wait
    };
    let ghost q_empty = q@;
    let out = resolve(w, ctx, en, pos, action, pos, MAX_JUMPS, &mut q);
    let ghost q_res = q@;
    assert(q_res.skip(q_empty.len() as int) =~= q_res);
    proof {
        crate::engine::lemma_appended_refl(q@);
    }
    if out.acted {
        if en.is_player {
            ctx.global_time = ctx.global_time.saturating_add(1);
            let ghost qr = q@;
            reset_acted(w, pos, &mut q);
            proof {
                crate::engine::lemma_appended_trans(q_res, qr, q@);
            }
            assert(forall|p: Point|
                p != pos && #[trigger] w.ent_at(p) is Some ==> q@.contains(Cmd::SetActed { at: p, acted: false }));
        } else {
            let ghost qa = q@;
            crate::engine::push_cmd(&mut q, Cmd::SetActed { at: pos, acted: true });
            proof {
                crate::engine::lemma_appended_trans(q_res, qa, q@);
            }
            let len = en.actions.len();
            let next = match out.cursor {
                Some(c) => c,
                None => if len == 0 || en.cursor >= len - 1 {
                    0
                } else {
                    en.cursor + 1
                },
            };
            let ghost qb = q@;
            crate::engine::push_cmd(&mut q, Cmd::SetCursor { at: pos, cursor: next });
            proof {
                crate::engine::lemma_appended_trans(q_res, qb, q@);
            }
            assert(q@[q_res.len() as int] == (Cmd::SetActed { at: pos, acted: true }));
            assert(q@[q_res.len() as int + 1] == (Cmd::SetCursor { at: pos, cursor: next }));
        }
    }
    let ghost q_book = q@;
    if out.pos != pos {
        queue_movement(w, ctx, en, pos, out.pos, &mut q);
        assert(q@[q_book.len() as int] == (Cmd::MoveTo { from: pos, to: out.pos }));
    }
    proof {
        crate::engine::lemma_appended_refl(q_book);
        if out.pos != pos {
            assert(q@.take(q_book.len() as int) == q_book);
            crate::engine::lemma_appended_trans(q_res, q_book, q@);
        }
        assert(appended(q_book, q@));
        if out.acted && en.is_player {
            assert forall|p: Point|
                p != pos && #[trigger] w.ent_at(p) is Some implies q@.contains(Cmd::SetActed { at: p, acted: false }) by {
                lemma_appended_contains(q_book, q@, Cmd::SetActed { at: p, acted: false });
            }
        }
        assert(q@.take(q_res.len() as int) == q_res);
        if out.acted && !en.is_player {
            if out.pos != pos {
                assert(q@[q_res.len() as int] == q_book[q_res.len() as int]);
                assert(q@[q_res.len() as int + 1] == q_book[q_res.len() as int + 1]);
            }
            assert(q@[q_res.len() as int] == (Cmd::SetActed { at: pos, acted: true }));
            assert(q@[q_res.len() as int + 1] == (Cmd::SetCursor {
                at: pos,
                cursor: match out.cursor {
                    Some(c) => c,
                    None => crate::engine::next_cursor(en.cursor as int, en.actions@.len() as int),
                },
            }));
        }
    }
    (q, Some(out))
}

} // verus!
