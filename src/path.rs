//! Bounded breadth-first path search over an entity's own move offsets.

use vstd::prelude::*;
use crate::point::Point;
use crate::turn::count_false;
use crate::world::World;

verus! {

/// Largest number of steps a path may take.
pub const PATH_DEPTH: usize = 20;

/// Where a path search leads.
#[derive(Clone, Copy, Debug, PartialEq, Eq, Structural)]
pub enum PathStep {
    /// The start is already a goal.
    Arrived,
    /// The first step of a shortest path to a goal.
    Step(Point),
    /// No goal can be reached within the depth bound.
    NoPath,
}

/// `p` is one legal move from `start`: `start` plus some offset of `moves`,
/// onto a free cell.
pub open spec fn legal_step(w: World, start: Point, moves: Seq<Point>, p: Point) -> bool {
    &&& w.free_spec(p)
    &&& exists|m: int| 0 <= m < moves.len() && start.can_add(moves[m]) && p == start.plus(#[trigger] moves[m])
}

/// Whether `goals` holds `p`.
pub fn contains_point(goals: &Vec<Point>, p: Point) -> (r: bool)
    ensures
        r == goals@.contains(p),
{
    let mut i: usize = 0;
    while i < goals.len()
        invariant
            i <= goals@.len(),
            forall|k: int| 0 <= k < i ==> goals@[k] != p,
        decreases goals@.len() - i,
    {
        if goals[i] == p {
            assert(goals@[i as int] == p);
            return true;
        }
        i = i + 1;
    }
    false
}

/// `p` is a path from `start`: each step is a legal move from the cell before.
pub open spec fn path_ok(w: World, start: Point, moves: Seq<Point>, p: Seq<Point>) -> bool {
    &&& p.len() >= 1
    &&& p[0] == start
    &&& forall|i: int| 0 <= i < p.len() - 1 ==> legal_step(w, p[i], moves, #[trigger] p[i + 1])
}

/// Every cell that `dist` holds at a distance below `bound` has all its legal
/// moves in `dist`, at most one further.
pub open spec fn closed_below(w: World, moves: Seq<Point>, dist: Map<Point, int>, bound: int) -> bool {
    forall|c: Point, nb: Point|
        #[trigger] dist.contains_key(c) && dist[c] < bound && legal_step(w, c, moves, nb) ==> #[trigger] dist.contains_key(nb)
            && dist[nb] <= dist[c] + 1
}

/// `s` is the first step of a shortest path of at most `max_depth` steps from
/// `start` to a cell of `goals`.
pub open spec fn shortest_first_step(w: World, start: Point, goals: Seq<Point>, moves: Seq<Point>, max_depth: int, s: Point) -> bool {
    legal_step(w, start, moves, s) && exists|p: Seq<Point>|
        #[trigger] path_ok(w, start, moves, p) && p.len() <= max_depth + 1 && goals.contains(p.last())
            && p.len() >= 2 && p[1] == s && forall|p2: Seq<Point>|
            #[trigger] path_ok(w, start, moves, p2) && goals.contains(p2.last()) ==> p2.len() >= p.len()
}

/// No path of at most `max_depth` steps from `start` ends on a cell of `goals`.
pub open spec fn no_path(w: World, start: Point, goals: Seq<Point>, moves: Seq<Point>, max_depth: int) -> bool {
    forall|p: Seq<Point>|
        #[trigger] path_ok(w, start, moves, p) && p.len() <= max_depth + 1 ==> !goals.contains(p.last())
}

proof fn lemma_reach(
    w: World,
    start: Point,
    moves: Seq<Point>,
    dist: Map<Point, int>,
    bound: int,
    p: Seq<Point>,
    i: int,
)
    requires
        path_ok(w, start, moves, p),
        0 <= i < p.len(),
        dist.contains_key(start),
        dist[start] == 0,
        closed_below(w, moves, dist, bound),
        i <= bound || forall|c: Point| #[trigger] dist.contains_key(c) ==> dist[c] < bound,
    ensures
        dist.contains_key(p[i]),
        dist[p[i]] <= i,
    decreases i,
{
    if i > 0 {
        lemma_reach(w, start, moves, dist, bound, p, i - 1);
        assert(legal_step(w, p[i - 1], moves, p[(i - 1) + 1]));
        assert(dist[p[i - 1]] < bound);
        assert(dist.contains_key(p[i]) && dist[p[i]] <= dist[p[i - 1]] + 1);
    }
}

/// Searches breadth-first from `start`, moving by the offsets of `moves`
/// onto free cells and at most `max_depth` steps, for a cell of `goals`.
/// `Arrived` when `start` is a goal; otherwise `Step` with the first step of a
/// shortest path of at most `max_depth` steps to a goal, or `NoPath` when no
/// such path exists.
pub fn find_first_step(w: &World, start: Point, goals: &Vec<Point>, moves: &Vec<Point>, max_depth: usize) -> (r: PathStep)
    requires
        w.wf(),
        w.in_bounds(start),
    ensures
        r is Arrived <==> goals@.contains(start),
        r is Step ==> shortest_first_step(*w, start, goals@, moves@, max_depth as int, r->Step_0),
        r is NoPath ==> no_path(*w, start, goals@, moves@, max_depth as int),
{
    if contains_point(goals, start) {
        return PathStep::Arrived;
    }
    let n = w.tiles.len();
    let mut visited: Vec<bool> = Vec::new();
    let mut z: usize = 0;
    while z < n
        invariant
            z <= n,
            visited@ == Seq::new(z as nat, |_i: int| false),
        decreases n - z,
    {
        visited.push(false);
        z = z + 1;
        assert(visited@ =~= Seq::new(z as nat, |_i: int| false));
    }
    proof {
        crate::turn::lemma_count_false_all(n as nat);
        crate::world::lemma_grid_idx(w.width as int, w.height as int, start);
        crate::engine::lemma_grid_bounded(*w, start);
    }
    let si = w.index_of(start).unwrap();
    proof {
        crate::turn::lemma_count_false_update(visited@, si as int);
    }
    visited.set(si, true);
    let mut unmarked: usize = n - 1;
    let ghost mut dist: Map<Point, int> = Map::empty().insert(start, 0);
    // The cells found at the current depth, each with the first step towards it.
    let mut frontier: Vec<(Point, Point)> = Vec::new();
    let ghost mut paths: Seq<Seq<Point>> = Seq::empty();
    frontier.push((start, start));
    proof {
        paths = seq![seq![start]];
    }
    let mut depth: usize = 0;
    assert(frontier@[0].0 == start);
    assert forall|c: Point| #[trigger] dist.contains_key(c) implies w.in_bounds(c) && visited@[w.idx(c)] && dist[c] == 0 by {}
    assert forall|c: Point| #[trigger] w.in_bounds(c) && visited@[w.idx(c)] implies dist.contains_key(c) by {
        crate::world::lemma_grid_idx(w.width as int, w.height as int, c);
        if w.idx(c) == si as int {
            crate::turn::lemma_idx_inj(*w, c, start);
        }
    }
    while depth < max_depth && frontier.len() > 0
        invariant
            w.wf(),
            w.in_bounds(start),
            !goals@.contains(start),
            visited@.len() == n,
            n == w.tiles@.len(),
            unmarked == count_false(visited@),
            depth <= max_depth,
            dist.contains_key(start),
            dist[start] == 0,
            forall|c: Point| #[trigger] dist.contains_key(c) ==> w.in_bounds(c) && visited@[w.idx(c)] && 0 <= dist[c] <= depth,
            forall|c: Point| #[trigger] w.in_bounds(c) && visited@[w.idx(c)] ==> dist.contains_key(c),
            forall|c: Point| #[trigger] dist.contains_key(c) && c != start ==> !goals@.contains(c),
            closed_below(*w, moves@, dist, depth as int),
            paths.len() == frontier@.len(),
            forall|k: int|
                0 <= k < frontier@.len() ==> {
                    let c = (#[trigger] frontier@[k]).0;
                    &&& dist.contains_key(c)
                    &&& dist[c] == depth
                    &&& path_ok(*w, start, moves@, paths[k])
                    &&& paths[k].len() == depth + 1
                    &&& paths[k].last() == c
                    &&& depth > 0 ==> paths[k][1] == frontier@[k].1
                },
            forall|c: Point| #[trigger] dist.contains_key(c) && dist[c] == depth ==> exists|k: int|
                0 <= k < frontier@.len() && #[trigger] frontier@[k].0 == c,
        decreases max_depth - depth,
    {
        let mut next: Vec<(Point, Point)> = Vec::new();
        let ghost mut next_paths: Seq<Seq<Point>> = Seq::empty();
        let ghost dist0 = dist;
        assert(dist0 == dist);
        assert forall|k: int|
            0 <= k < frontier@.len() implies {
                let c = (#[trigger] frontier@[k]).0;
                &&& dist0.contains_key(c)
                &&& dist0[c] == depth
                &&& path_ok(*w, start, moves@, paths[k])
                &&& paths[k].len() == depth + 1
                &&& paths[k].last() == frontier@[k].0
                &&& depth > 0 ==> paths[k][1] == frontier@[k].1
            } by {}
        let mut f: usize = 0;
        while f < frontier.len()
            invariant
                w.wf(),
                w.in_bounds(start),
                !goals@.contains(start),
                visited@.len() == n,
                n == w.tiles@.len(),
                unmarked == count_false(visited@),
                depth < max_depth,
                f <= frontier@.len(),
                dist.contains_key(start),
                dist[start] == 0,
                forall|c: Point| #[trigger] dist0.contains_key(c) ==> dist.contains_key(c) && dist[c] == dist0[c],
                forall|c: Point| #[trigger] dist.contains_key(c) ==> w.in_bounds(c) && visited@[w.idx(c)] && 0 <= dist[c] <= depth + 1,
                forall|c: Point| #[trigger] dist.contains_key(c) && !dist0.contains_key(c) ==> dist[c] == depth + 1,
                forall|c: Point| #[trigger] w.in_bounds(c) && visited@[w.idx(c)] ==> dist.contains_key(c),
                forall|c: Point| #[trigger] dist.contains_key(c) && c != start ==> !goals@.contains(c),
                closed_below(*w, moves@, dist, depth as int),
                forall|k: int, nb: Point|
                    0 <= k < f && legal_step(*w, (#[trigger] frontier@[k]).0, moves@, nb) ==> #[trigger] dist.contains_key(nb)
                        && dist[nb] <= depth + 1,
                paths.len() == frontier@.len(),
                forall|k: int|
                    0 <= k < frontier@.len() ==> {
                        let c = (#[trigger] frontier@[k]).0;
                        &&& dist0.contains_key(c)
                        &&& dist0[c] == depth
                        &&& path_ok(*w, start, moves@, paths[k])
                        &&& paths[k].len() == depth + 1
                        &&& paths[k].last() == c
                        &&& depth > 0 ==> paths[k][1] == frontier@[k].1
                    },
                forall|c: Point| #[trigger] dist0.contains_key(c) && dist0[c] == depth ==> exists|k: int|
                    0 <= k < frontier@.len() && #[trigger] frontier@[k].0 == c,
                next_paths.len() == next@.len(),
                forall|k: int|
                    0 <= k < next@.len() ==> {
                        let c = (#[trigger] next@[k]).0;
                        &&& dist.contains_key(c)
                        &&& dist[c] == depth + 1
                        &&& path_ok(*w, start, moves@, next_paths[k])
                        &&& next_paths[k].len() == depth + 2
                        &&& next_paths[k].last() == c
                        &&& next_paths[k][1] == next@[k].1
                    },
                forall|c: Point| #[trigger] dist.contains_key(c) && dist[c] == depth + 1 ==> exists|k: int|
                    0 <= k < next@.len() && #[trigger] next@[k].0 == c,
            decreases frontier@.len() - f,
        {
            let (cell, first0) = frontier[f];
            let ghost pc = paths[f as int];
            assert(frontier@[f as int].0 == cell);
            assert(w.in_bounds(cell));
            proof {
                crate::engine::lemma_grid_bounded(*w, cell);
            }
            let mut m: usize = 0;
            while m < moves.len()
                invariant
                    w.wf(),
                    w.in_bounds(start),
                    !goals@.contains(start),
                    cell.bounded(),
                    visited@.len() == n,
                    n == w.tiles@.len(),
                    unmarked == count_false(visited@),
                    depth < max_depth,
                    f < frontier@.len(),
                    frontier@[f as int].0 == cell,
                    frontier@[f as int].1 == first0,
                    m <= moves@.len(),
                    dist.contains_key(start),
                    dist[start] == 0,
                    dist0.contains_key(cell),
                    dist0[cell] == depth,
                    path_ok(*w, start, moves@, pc),
                    pc.len() == depth + 1,
                    pc.last() == cell,
                    depth > 0 ==> pc[1] == first0,
                    forall|c: Point| #[trigger] dist0.contains_key(c) ==> dist.contains_key(c) && dist[c] == dist0[c],
                    forall|c: Point| #[trigger] dist.contains_key(c) ==> w.in_bounds(c) && visited@[w.idx(c)] && 0 <= dist[c] <= depth + 1,
                    forall|c: Point| #[trigger] dist.contains_key(c) && !dist0.contains_key(c) ==> dist[c] == depth + 1,
                    forall|c: Point| #[trigger] w.in_bounds(c) && visited@[w.idx(c)] ==> dist.contains_key(c),
                    forall|c: Point| #[trigger] dist.contains_key(c) && c != start ==> !goals@.contains(c),
                    closed_below(*w, moves@, dist, depth as int),
                    forall|k: int, nb: Point|
                        0 <= k < f && legal_step(*w, (#[trigger] frontier@[k]).0, moves@, nb) ==> #[trigger] dist.contains_key(nb)
                            && dist[nb] <= depth + 1,
                    forall|m2: int| 0 <= m2 < m && cell.can_add(moves@[m2]) && w.free_spec(cell.plus(#[trigger] moves@[m2]))
                        ==> dist.contains_key(cell.plus(moves@[m2])) && dist[cell.plus(moves@[m2])] <= depth + 1,
                    next_paths.len() == next@.len(),
                    forall|k: int|
                        0 <= k < next@.len() ==> {
                            let c = (#[trigger] next@[k]).0;
                            &&& dist.contains_key(c)
                            &&& dist[c] == depth + 1
                            &&& path_ok(*w, start, moves@, next_paths[k])
                            &&& next_paths[k].len() == depth + 2
                            &&& next_paths[k].last() == c
                            &&& next_paths[k][1] == next@[k].1
                        },
                    forall|c: Point| #[trigger] dist.contains_key(c) && dist[c] == depth + 1 ==> exists|k: int|
                        0 <= k < next@.len() && #[trigger] next@[k].0 == c,
                decreases moves@.len() - m,
            {
                if let Some(nb) = cell.checked_add(moves[m]) {
                    if w.is_free(nb) {
                        let i = w.index_of(nb).unwrap();
                        proof {
                            crate::world::lemma_grid_idx(w.width as int, w.height as int, nb);
                            assert(legal_step(*w, cell, moves@, nb)) by {
                                assert(nb == cell.plus(moves@[m as int]));
                            }
                        }
                        if !visited[i] {
                            let first = if depth == 0 { nb } else { first0 };
                            let ghost pn = pc.push(nb);
                            proof {
                                assert(pn.last() == nb);
                                assert forall|i2: int| 0 <= i2 < pn.len() - 1 implies legal_step(*w, pn[i2], moves@, #[trigger] pn[i2 + 1]) by {
                                    if i2 < pc.len() - 1 {
                                        assert(pn[i2] == pc[i2] && pn[i2 + 1] == pc[i2 + 1]);
                                    }
                                }
                                assert(path_ok(*w, start, moves@, pn));
                                assert(pn[1] == first);
                            }
                            if contains_point(goals, nb) {
                                proof {
                                    assert forall|p2: Seq<Point>|
                                        #[trigger] path_ok(*w, start, moves@, p2) && goals@.contains(p2.last())
                                            implies p2.len() >= pn.len() by {
                                        if p2.len() < pn.len() {
                                            lemma_reach(*w, start, moves@, dist, depth as int, p2, p2.len() - 1);
                                            assert(p2.last() == p2[p2.len() - 1]);
                                            if p2.last() == start {
                                            }
                                        }
                                    }
                                    assert(legal_step(*w, start, moves@, first)) by {
                                        assert(legal_step(*w, pn[0], moves@, pn[0int + 1]));
                                    }
                                    assert(path_ok(*w, start, moves@, pn));
                                }
                                return PathStep::Step(first);
                            }
                            proof {
                                crate::turn::lemma_count_false_update(visited@, i as int);
                            }
                            let ghost vb = visited@;
                            let ghost db = dist;
                            let ghost nx0 = next@;
                            visited.set(i, true);
                            unmarked = unmarked - 1;
                            next.push((nb, first));
                            proof {
                                dist = dist.insert(nb, depth + 1);
                                next_paths = next_paths.push(pn);
                                assert forall|c: Point, nb2: Point|
                                    #[trigger] dist.contains_key(c) && dist[c] < depth && legal_step(*w, c, moves@, nb2)
                                        implies #[trigger] dist.contains_key(nb2) && dist[nb2] <= dist[c] + 1 by {
                                    assert(c != nb);
                                    assert(db.contains_key(c));
                                    assert(db.contains_key(nb2) && db[nb2] <= db[c] + 1);
                                }
                                assert forall|k: int, nb2: Point|
                                    0 <= k < f && legal_step(*w, (#[trigger] frontier@[k]).0, moves@, nb2) implies #[trigger] dist.contains_key(nb2)
                                        && dist[nb2] <= depth + 1 by {
                                    assert(db.contains_key(nb2) && db[nb2] <= depth + 1);
                                }
                                assert forall|c: Point| #[trigger] w.in_bounds(c) && visited@[w.idx(c)] implies dist.contains_key(c) by {
                                    crate::world::lemma_grid_idx(w.width as int, w.height as int, c);
                                    if w.idx(c) == i as int {
                                        crate::turn::lemma_idx_inj(*w, c, nb);
                                    } else {
                                        assert(vb[w.idx(c)]);
                                    }
                                }
                                assert forall|c: Point| #[trigger] dist.contains_key(c) implies w.in_bounds(c) && visited@[w.idx(c)] && 0 <= dist[c] <= depth + 1 by {
                                    crate::world::lemma_grid_idx(w.width as int, w.height as int, c);
                                }
                                assert forall|c: Point| #[trigger] dist.contains_key(c) && dist[c] == depth + 1 implies exists|k: int|
                                    0 <= k < next@.len() && #[trigger] next@[k].0 == c by {
                                    if c == nb {
                                        assert(next@[next@.len() - 1].0 == nb);
                                    } else {
                                        assert(db.contains_key(c) && db[c] == depth + 1);
                                        let k = choose|k: int| 0 <= k < nx0.len() && #[trigger] nx0[k].0 == c;
                                        assert(next@[k] == nx0[k]);
                                    }
                                }
                                assert forall|k: int| 0 <= k < next@.len() implies {
                                    let c = (#[trigger] next@[k]).0;
                                    &&& dist.contains_key(c)
                                    &&& dist[c] == depth + 1
                                    &&& path_ok(*w, start, moves@, next_paths[k])
                                    &&& next_paths[k].len() == depth + 2
                                    &&& next_paths[k].last() == c
                                    &&& next_paths[k][1] == next@[k].1
                                } by {
                                    if k < next@.len() - 1 {
                                        assert(next@[k] == nx0[k]);
                                    }
                                }
                            }
                        }
                    }
                }
                m = m + 1;
            }
            proof {
                assert forall|k: int, nb: Point|
                    0 <= k < f + 1 && legal_step(*w, (#[trigger] frontier@[k]).0, moves@, nb) implies #[trigger] dist.contains_key(nb)
                        && dist[nb] <= depth + 1 by {
                    if k == f {
                        let m2 = choose|m2: int| 0 <= m2 < moves@.len() && cell.can_add(moves@[m2]) && nb == cell.plus(#[trigger] moves@[m2]);
                        assert(w.free_spec(cell.plus(moves@[m2])));
                    }
                }
            }
            f = f + 1;
        }
        proof {
            assert forall|c: Point, nb: Point|
                #[trigger] dist.contains_key(c) && dist[c] < depth + 1 && legal_step(*w, c, moves@, nb) implies #[trigger] dist.contains_key(nb)
                    && dist[nb] <= dist[c] + 1 by {
                if dist[c] == depth {
                    assert(dist0.contains_key(c));
                    let k = choose|k: int| 0 <= k < frontier@.len() && #[trigger] frontier@[k].0 == c;
                    assert(legal_step(*w, frontier@[k].0, moves@, nb));
                }
            }
        }
        frontier = next;
        proof {
            paths = next_paths;
        }
        depth = depth + 1;
    }
    proof {
        assert forall|p: Seq<Point>|
            #[trigger] path_ok(*w, start, moves@, p) && p.len() <= max_depth + 1 implies !goals@.contains(p.last()) by {
            if depth < max_depth {
                assert forall|c: Point| #[trigger] dist.contains_key(c) implies dist[c] < depth as int + 1 by {}
                assert(closed_below(*w, moves@, dist, depth as int + 1)) by {
                    assert forall|c: Point, nb: Point|
                        #[trigger] dist.contains_key(c) && dist[c] < depth + 1 && legal_step(*w, c, moves@, nb) implies #[trigger] dist.contains_key(nb)
                            && dist[nb] <= dist[c] + 1 by {
                        if dist[c] == depth {
                            let k = choose|k: int| 0 <= k < frontier@.len() && #[trigger] frontier@[k].0 == c;
                        }
                    }
                }
                lemma_reach(*w, start, moves@, dist, depth as int + 1, p, p.len() - 1);
            } else {
                lemma_reach(*w, start, moves@, dist, depth as int, p, p.len() - 1);
            }
            assert(p.last() == p[p.len() - 1]);
        }
    }
    PathStep::NoPath
}

} // verus!
