//! Melee and ranged attacks, and the per-direction attack pattern of an entity.

use vstd::prelude::*;
use crate::damage::DmgInst;
use crate::point::{Point, adjacent4, adjacent8, dir_rank, get_all_adjacent, get_all_adjacent_diagonal};
use crate::vfx::{Frame, Glyph, Vfx};

verus! {

/// A named side effect of an attack, resolved by the engine into commands.
#[derive(Clone, Copy, Debug, PartialEq, Eq, Structural)]
pub enum OtherEffect {
    /// Sets the target's forced velocity to the direction of the blow.
    Knockback,
    /// Deletes the attacker.
    SelfDestruct,
    /// Moves the target half-way towards the attacker.
    Pull,
}

/// Some effect that can occur as a result of an attack.
#[derive(Clone, Copy, Debug, PartialEq, Eq, Structural)]
pub enum Effect {
    /// Apply the damage instance to the entity.
    DoDmg(DmgInst),
    /// Do something else, given where the attack comes from and where it lands.
    Other(OtherEffect),
}

/// An attack on cells at fixed offsets from the attacker.
#[derive(Clone, Debug)]
pub struct MeleeAtk {
    /// What the attack does to each cell it affects.
    pub effects: Vec<Effect>,
    /// Where it affects, relative to the attacker.
    pub place: Vec<Point>,
    /// Effects displayed relative to the attacker.
    pub fx: Vec<(Point, Vfx)>,
    /// Effect displayed at each place the attack misses.
    pub miss_fx: Vfx,
}

/// Why an attack pattern could not be built.
#[derive(Clone, Copy, Debug, PartialEq, Eq, Structural)]
pub enum PatternError {
    /// Attacks come in sets of four or eight directions; this many were asked for.
    NeighbourCount(usize),
}

impl MeleeAtk {
    /// All offsets are small.
    pub open spec fn wf(&self) -> bool {
        &&& forall|k: int| 0 <= k < self.place@.len() ==> (#[trigger] self.place@[k]).small()
        &&& forall|k: int| 0 <= k < self.fx@.len() ==> (#[trigger] self.fx@[k]).0.small()
    }

    /// Some place of the attack, taken from `from`, is `target`.
    pub open spec fn hits_spec(&self, from: Point, target: Point) -> bool {
        exists|k: int| 0 <= k < self.place@.len() && from.plus(#[trigger] self.place@[k]) == target
    }

    /// Creates a melee attack.
    pub fn new(effects: Vec<Effect>, place: Vec<Point>, fx: Vec<(Point, Vfx)>, miss_fx: Vfx) -> (r:
        MeleeAtk)
        ensures
            r.effects@ == effects@,
            r.place@ == place@,
            r.fx@ == fx@,
            r.miss_fx == miss_fx,
    {
        MeleeAtk { effects, place, fx, miss_fx }
    }

    /// Creates one attack per neighbour offset: the four orthogonal ones when
    /// `N` is 4, all eight when `N` is 8, pairing each with the next character
    /// of `chars` for its visual. Any other `N` is an error.
    pub fn bulk_new<const N: usize>(
        effects: Vec<Effect>,
        clr: crossterm::style::Color,
        frames: usize,
        miss_fx: Vfx,
        chars: &Vec<char>,
    ) -> (r: Result<Vec<MeleeAtk>, PatternError>)
        ensures
            r is Err <==> (N != 4 && N != 8),
            r is Err ==> r->Err_0 == PatternError::NeighbourCount(N),
            r is Ok ==> {
                let adj = if N == 4 {
                    adjacent4()
                } else {
                    adjacent8()
                };
                let atks = r->Ok_0@;
                &&& atks.len() == if chars@.len() < adj.len() {
                    chars@.len()
                } else {
                    adj.len()
                }
                &&& forall|i: int|
                    0 <= i < atks.len() ==> {
                        &&& (#[trigger] atks[i]).place@ == seq![adj[i]]
                        &&& atks[i].effects@ == effects@
                        &&& atks[i].fx@.len() == 1
                        &&& atks[i].fx@[0].0 == adj[i]
                        &&& atks[i].fx@[0].1.cur_idx == 0
                        &&& atks[i].fx@[0].1.frames@ == Seq::new(
                            frames as nat,
                            |_k: int| Frame::Opaque(Glyph { ch: chars@[i], fg: Some(clr), bg: None }),
                        )
                        &&& atks[i].miss_fx.frames@ == miss_fx.frames@
                        &&& atks[i].miss_fx.cur_idx == miss_fx.cur_idx
                        &&& atks[i].wf()
                    }
            },
    {
        let adj = if N == 4 {
            get_all_adjacent()
        } else if N == 8 {
            get_all_adjacent_diagonal()
        } else {
            return Err(PatternError::NeighbourCount(N));
        };
        let ghost adj_s = adj@;
        assert(forall|i: int| 0 <= i < adj_s.len() ==> (#[trigger] adj_s[i]).small());
        let n = if chars.len() < adj.len() {
            chars.len()
        } else {
            adj.len()
        };
        let mut bulk: Vec<MeleeAtk> = Vec::new();
        let mut i: usize = 0;
        while i < n
            invariant
                n <= adj@.len(),
                n <= chars@.len(),
                adj@ == adj_s,
                forall|k: int| 0 <= k < adj_s.len() ==> (#[trigger] adj_s[k]).small(),
                i <= n,
                bulk@.len() == i,
                forall|k: int|
                    0 <= k < i ==> {
                        &&& (#[trigger] bulk@[k]).place@ == seq![adj_s[k]]
                        &&& bulk@[k].effects@ == effects@
                        &&& bulk@[k].fx@.len() == 1
                        &&& bulk@[k].fx@[0].0 == adj_s[k]
                        &&& bulk@[k].fx@[0].1.cur_idx == 0
                        &&& bulk@[k].fx@[0].1.frames@ == Seq::new(
                            frames as nat,
                            |_k: int| Frame::Opaque(Glyph { ch: chars@[k], fg: Some(clr), bg: None }),
                        )
                        &&& bulk@[k].miss_fx.frames@ == miss_fx.frames@
                        &&& bulk@[k].miss_fx.cur_idx == miss_fx.cur_idx
                        &&& bulk@[k].wf()
                    },
            decreases n - i,
        {
            let pos = adj[i];
            let mut effs: Vec<Effect> = Vec::new();
            let mut e: usize = 0;
            while e < effects.len()
                invariant
                    e <= effects@.len(),
                    effs@ == effects@.take(e as int),
                decreases effects@.len() - e,
            {
                effs.push(effects[e]);
                e = e + 1;
                assert(effs@ =~= effects@.take(e as int));
            }
            assert(effs@ =~= effects@);
            let atk = MeleeAtk::new(
                effs,
                vec![pos],
                vec![(pos, Vfx::opaque_with_clr(chars[i], clr, frames))],
                miss_fx.duplicate(),
            );
            assert(atk.place@ =~= seq![adj_s[i as int]]);
            bulk.push(atk);
            i = i + 1;
        }
        Ok(bulk)
    }

    /// Whether the attack, made from `from`, reaches `target`.
    pub fn hits(&self, from: Point, target: Point) -> (r: bool)
        requires
            self.wf(),
            from.bounded(),
        ensures
            r == self.hits_spec(from, target),
    {
        let mut k: usize = 0;
        while k < self.place.len()
            invariant
                self.wf(),
                from.bounded(),
                k <= self.place@.len(),
                forall|m: int| 0 <= m < k ==> from.plus(#[trigger] self.place@[m]) != target,
            decreases self.place@.len() - k,
        {
            let p = self.place[k];
            assert(self.place@[k as int].small());
            if from.add(p) == target {
                return true;
            }
            k = k + 1;
        }
        false
    }
}

/// How a ranged attack draws its line: one glyph on every cell of the line,
/// chosen by whether the shot hit.
#[derive(Clone, Copy, Debug)]
pub struct LineFx {
    pub hit: Glyph,
    pub miss: Glyph,
    pub frames: usize,
}

/// An attack on the nearest visible target within range.
#[derive(Clone, Debug)]
pub struct RangedAtk {
    /// What the attack does to its target.
    pub effects: Vec<Effect>,
    /// Largest distance at which the attack can be used.
    pub range: u32,
    /// Effects displayed relative to the attacker.
    pub fx: Vec<(Point, Vfx)>,
    /// How the line from attacker to target is drawn.
    pub line_fx: LineFx,
}

impl RangedAtk {
    /// Creates a ranged attack.
    pub fn new(effects: Vec<Effect>, range: u32, fx: Vec<(Point, Vfx)>, line_fx: LineFx) -> (r:
        RangedAtk)
        ensures
            r.effects@ == effects@,
            r.range == range,
            r.fx@ == fx@,
            r.line_fx == line_fx,
    {
        RangedAtk { effects, range, fx, line_fx }
    }
}

/// The cells `to - p` for each place `p`.
pub open spec fn minus_each(to: Point, places: Seq<Point>) -> Seq<Point> {
    places.map_values(|p: Point| to.minus(p))
}

/// The cells `from + p` for each place `p`.
pub open spec fn plus_each(from: Point, places: Seq<Point>) -> Seq<Point> {
    places.map_values(|p: Point| from.plus(p))
}

/// For each attack in turn, the cells from which it reaches `to`.
pub open spec fn atks_minus(to: Point, atks: Seq<MeleeAtk>) -> Seq<Point>
    decreases atks.len(),
{
    if atks.len() == 0 {
        seq![]
    } else {
        atks_minus(to, atks.drop_last()) + minus_each(to, atks.last().place@)
    }
}

/// For each attack in turn, the cells it reaches from `from`.
pub open spec fn atks_plus(from: Point, atks: Seq<MeleeAtk>) -> Seq<Point>
    decreases atks.len(),
{
    if atks.len() == 0 {
        seq![]
    } else {
        atks_plus(from, atks.drop_last()) + plus_each(from, atks.last().place@)
    }
}

/// For each direction in turn, the cells from which its attacks reach `to`.
pub open spec fn dirs_minus(to: Point, dirs: Seq<(Point, Vec<MeleeAtk>)>) -> Seq<Point>
    decreases dirs.len(),
{
    if dirs.len() == 0 {
        seq![]
    } else {
        dirs_minus(to, dirs.drop_last()) + atks_minus(to, dirs.last().1@)
    }
}

/// Stores melee and ranged attacks. Associates the melee attacks with a direction.
#[derive(Clone, Debug)]
pub struct AtkPat {
    /// Melee attacks, by direction; each direction appears once.
    pub melee_atks: Vec<(Point, Vec<MeleeAtk>)>,
    /// Ranged attacks.
    pub ranged_atks: Vec<RangedAtk>,
}

impl AtkPat {
    /// The melee attacks of the `i`th direction.
    pub open spec fn atks_of(&self, i: int) -> Seq<MeleeAtk> {
        self.melee_atks@[i].1@
    }

    /// Directions are king-move offsets in the canonical order, each at most
    /// once, and every attack is well formed.
    pub open spec fn wf(&self) -> bool {
        &&& forall|i: int, j: int|
            0 <= i < j < self.melee_atks@.len() ==> dir_rank(self.melee_atks@[i].0) < dir_rank(
                self.melee_atks@[j].0,
            )
        &&& forall|i: int|
            0 <= i < self.melee_atks@.len() ==> adjacent8().contains(
                (#[trigger] self.melee_atks@[i]).0,
            )
        &&& forall|i: int, j: int|
            0 <= i < self.melee_atks@.len() && 0 <= j < self.atks_of(i).len() ==> (
            #[trigger] self.melee_atks@[i].1@[j]).wf()
    }

    /// The `j`th attack of the `i`th direction hits `target` from `from`.
    pub open spec fn hit_at(&self, i: int, j: int, from: Point, target: Point) -> bool {
        &&& 0 <= i < self.melee_atks@.len()
        &&& 0 <= j < self.atks_of(i).len()
        &&& self.atks_of(i)[j].hits_spec(from, target)
    }

    /// Some melee attack hits `target` from `from`.
    pub open spec fn any_hit(&self, from: Point, target: Point) -> bool {
        exists|i: int, j: int| self.hit_at(i, j, from, target)
    }

    /// An attack pattern with no attacks.
    pub fn empty() -> (r: AtkPat)
        ensures
            r.melee_atks@.len() == 0,
            r.ranged_atks@.len() == 0,
            r.wf(),
    {
        AtkPat { melee_atks: Vec::new(), ranged_atks: Vec::new() }
    }

    /// Builds a pattern from four or eight melee attacks, one per neighbour
    /// offset in canonical order, as [`MeleeAtk::bulk_new`] makes them.
    pub fn from_atks(atks: Vec<MeleeAtk>) -> (r: Result<AtkPat, PatternError>)
        requires
            forall|i: int| 0 <= i < atks@.len() ==> (#[trigger] atks@[i]).wf(),
        ensures
            r is Err <==> (atks@.len() != 4 && atks@.len() != 8),
            r is Err ==> r->Err_0 == PatternError::NeighbourCount(atks@.len() as usize),
            r is Ok ==> {
                let p = r->Ok_0;
                let adj = if atks@.len() == 4 {
                    adjacent4()
                } else {
                    adjacent8()
                };
                &&& p.wf()
                &&& p.ranged_atks@.len() == 0
                &&& p.melee_atks@.len() == atks@.len()
                &&& forall|i: int|
                    0 <= i < atks@.len() ==> (#[trigger] p.melee_atks@[i]).0 == adj[i]
                        && p.melee_atks@[i].1@ == seq![atks@[i]]
            },
    {
        let len = atks.len();
        let adj = if len == 4 {
            get_all_adjacent()
        } else if len == 8 {
            get_all_adjacent_diagonal()
        } else {
            return Err(PatternError::NeighbourCount(len));
        };
        let ghost orig = atks@;
        let ghost adj_s = adj@;
        assert(forall|i: int| 0 <= i < adj_s.len() ==> adjacent8().contains(#[trigger] adj_s[i])) by {
            assert forall|i: int| 0 <= i < adj_s.len() implies adjacent8().contains(#[trigger] adj_s[i]) by {
                assert(adjacent8()[i] == adj_s[i]);
            }
        }
        assert(forall|i: int| 0 <= i < adj_s.len() ==> dir_rank(#[trigger] adj_s[i]) == i);
        let mut atks = atks;
        let mut melee: Vec<(Point, Vec<MeleeAtk>)> = Vec::new();
        let mut i: usize = 0;
        while i < len
            invariant
                len == orig.len(),
                adj@ == adj_s,
                adj_s.len() == len,
                atks@ == orig.skip(i as int),
                i <= len,
                melee@.len() == i,
                forall|k: int|
                    0 <= k < i ==> (#[trigger] melee@[k]).0 == adj_s[k] && melee@[k].1@ == seq![
                        orig[k],
                    ],
            decreases len - i,
        {
            let a = atks.remove(0);
            assert(a == orig[i as int]);
            melee.push((adj[i], vec![a]));
            i = i + 1;
            assert(atks@ =~= orig.skip(i as int));
        }
        let r = AtkPat { melee_atks: melee, ranged_atks: Vec::new() };
        assert forall|i: int, j: int|
            0 <= i < r.melee_atks@.len() && 0 <= j < r.atks_of(i).len() implies (
            #[trigger] r.melee_atks@[i].1@[j]).wf() by {
            assert(r.melee_atks@[i].1@[j] == orig[i]);
        }
        Ok(r)
    }

    /// All positions from which some melee attack would hit `to`: for every
    /// direction, every attack and every place `p`, the cell `to - p`.
    pub fn find_attack_positions(&self, to: Point) -> (r: Vec<Point>)
        requires
            self.wf(),
            to.bounded(),
        ensures
            r@ == dirs_minus(to, self.melee_atks@),
    {
        let mut possible: Vec<Point> = Vec::new();
        let mut i: usize = 0;
        while i < self.melee_atks.len()
            invariant
                self.wf(),
                to.bounded(),
                i <= self.melee_atks@.len(),
                possible@ == dirs_minus(to, self.melee_atks@.take(i as int)),
            decreases self.melee_atks@.len() - i,
        {
            let atks = &self.melee_atks[i].1;
            let ghost before = possible@;
            let mut j: usize = 0;
            while j < atks.len()
                invariant
                    self.wf(),
                    to.bounded(),
                    i < self.melee_atks@.len(),
                    *atks == self.melee_atks@[i as int].1,
                    j <= atks@.len(),
                    possible@ == before + atks_minus(to, atks@.take(j as int)),
                decreases atks@.len() - j,
            {
                let atk = &atks[j];
                assert(atk.wf());
                let ghost mid = possible@;
                let mut k: usize = 0;
                while k < atk.place.len()
                    invariant
                        atk.wf(),
                        to.bounded(),
                        k <= atk.place@.len(),
                        possible@ == mid + minus_each(to, atk.place@.take(k as int)),
                    decreases atk.place@.len() - k,
                {
                    let p = atk.place[k];
                    assert(atk.place@[k as int].small());
                    possible.push(to.sub(p));
                    k = k + 1;
                    assert(possible@ =~= mid + minus_each(to, atk.place@.take(k as int)));
                }
                assert(atk.place@.take(k as int) =~= atk.place@);
                j = j + 1;
                assert(atks@.take(j as int).drop_last() =~= atks@.take(j as int - 1));
                assert(possible@ =~= before + atks_minus(to, atks@.take(j as int)));
            }
            assert(atks@.take(j as int) =~= atks@);
            i = i + 1;
            assert(self.melee_atks@.take(i as int).drop_last() =~= self.melee_atks@.take(
                i as int - 1,
            ));
        }
        assert(self.melee_atks@.take(i as int) =~= self.melee_atks@);
        possible
    }

    /// All cells that the melee attacks bound to direction `dir` reach from `from`;
    /// empty when the pattern has no attacks in that direction.
    pub fn attacked_from(&self, from: Point, dir: Point) -> (r: Vec<Point>)
        requires
            self.wf(),
            from.bounded(),
        ensures
            forall|i: int|
                0 <= i < self.melee_atks@.len() && (#[trigger] self.melee_atks@[i]).0 == dir
                    ==> r@ == atks_plus(from, self.atks_of(i)),
            (forall|i: int| 0 <= i < self.melee_atks@.len() ==> (#[trigger] self.melee_atks@[i]).0
                != dir) ==> r@.len() == 0,
    {
        let mut possible: Vec<Point> = Vec::new();
        let mut i: usize = 0;
        while i < self.melee_atks.len()
            invariant
                self.wf(),
                from.bounded(),
                i <= self.melee_atks@.len(),
                forall|m: int| 0 <= m < i ==> (#[trigger] self.melee_atks@[m]).0 != dir,
                possible@.len() == 0,
            decreases self.melee_atks@.len() - i,
        {
            if self.melee_atks[i].0 == dir {
                let atks = &self.melee_atks[i].1;
                let mut j: usize = 0;
                while j < atks.len()
                    invariant
                        self.wf(),
                        from.bounded(),
                        i < self.melee_atks@.len(),
                        *atks == self.melee_atks@[i as int].1,
                        j <= atks@.len(),
                        possible@ == atks_plus(from, atks@.take(j as int)),
                    decreases atks@.len() - j,
                {
                    let atk = &atks[j];
                    assert(atk.wf());
                    let ghost mid = possible@;
                    let mut k: usize = 0;
                    while k < atk.place.len()
                        invariant
                            atk.wf(),
                            from.bounded(),
                            k <= atk.place@.len(),
                            possible@ == mid + plus_each(from, atk.place@.take(k as int)),
                        decreases atk.place@.len() - k,
                    {
                        let p = atk.place[k];
                        assert(atk.place@[k as int].small());
                        possible.push(from.add(p));
                        k = k + 1;
                        assert(possible@ =~= mid + plus_each(from, atk.place@.take(k as int)));
                    }
                    assert(atk.place@.take(k as int) =~= atk.place@);
                    j = j + 1;
                    assert(atks@.take(j as int).drop_last() =~= atks@.take(j as int - 1));
                }
                assert(atks@.take(j as int) =~= atks@);
                return possible;
            }
            i = i + 1;
        }
        possible
    }

    /// The index of direction `dir` in the pattern, if it has attacks there.
    pub fn dir_index(&self, dir: Point) -> (r: Option<usize>)
        requires
            self.wf(),
        ensures
            r is Some ==> r->Some_0 < self.melee_atks@.len() && self.melee_atks@[r->Some_0 as int].0 == dir,
            r is None ==> forall|i: int| 0 <= i < self.melee_atks@.len() ==> (#[trigger] self.melee_atks@[i]).0 != dir,
    {
        let mut i: usize = 0;
        while i < self.melee_atks.len()
            invariant
                i <= self.melee_atks@.len(),
                forall|m: int| 0 <= m < i ==> (#[trigger] self.melee_atks@[m]).0 != dir,
            decreases self.melee_atks@.len() - i,
        {
            if self.melee_atks[i].0 == dir {
                return Some(i);
            }
            i = i + 1;
        }
        None
    }

    /// The first direction, in the pattern's order, with an attack that hits
    /// `target` from `from`, and the index of the first such attack in it.
    pub fn melee_hit_from(&self, from: Point, target: Point) -> (r: Option<(Point, usize)>)
        requires
            self.wf(),
            from.bounded(),
        ensures
            r is None <==> !self.any_hit(from, target),
            r is Some ==> exists|i: int|
                {
                    &&& 0 <= i < self.melee_atks@.len()
                    &&& (#[trigger] self.melee_atks@[i]).0 == r->Some_0.0
                    &&& self.hit_at(i, r->Some_0.1 as int, from, target)
                    &&& forall|i2: int, j2: int| 0 <= i2 < i ==> !self.hit_at(i2, j2, from, target)
                    &&& forall|j2: int| 0 <= j2 < r->Some_0.1 ==> !self.hit_at(i, j2, from, target)
                },
            r is Some ==> forall|i2: int, j2: int|
                0 <= i2 < self.melee_atks@.len() && dir_rank(self.melee_atks@[i2].0) < dir_rank(
                    r->Some_0.0,
                ) ==> !#[trigger] self.hit_at(i2, j2, from, target),
    {
        let mut i: usize = 0;
        while i < self.melee_atks.len()
            invariant
                self.wf(),
                from.bounded(),
                i <= self.melee_atks@.len(),
                forall|i2: int, j2: int| 0 <= i2 < i ==> !self.hit_at(i2, j2, from, target),
            decreases self.melee_atks@.len() - i,
        {
            let dir = self.melee_atks[i].0;
            let atks = &self.melee_atks[i].1;
            let mut n: usize = 0;
            while n < atks.len()
                invariant
                    self.wf(),
                    from.bounded(),
                    i < self.melee_atks@.len(),
                    *atks == self.melee_atks@[i as int].1,
                    dir == self.melee_atks@[i as int].0,
                    forall|i2: int, j2: int| 0 <= i2 < i ==> !self.hit_at(i2, j2, from, target),
                    n <= atks@.len(),
                    forall|j2: int| 0 <= j2 < n ==> !self.hit_at(i as int, j2, from, target),
                decreases atks@.len() - n,
            {
                assert(atks@[n as int].wf());
                if atks[n].hits(from, target) {
                    assert(self.hit_at(i as int, n as int, from, target));
                    assert(self.melee_atks@[i as int].0 == dir);
                    assert forall|i2: int, j2: int|
                        0 <= i2 < self.melee_atks@.len() && dir_rank(self.melee_atks@[i2].0)
                            < dir_rank(dir) implies !#[trigger] self.hit_at(i2, j2, from, target) by {
                        if i2 >= i {
                            if i2 > i {
                                assert(dir_rank(self.melee_atks@[i as int].0) < dir_rank(self.melee_atks@[i2].0));
                            }
                        }
                    }
                    return Some((dir, n));
                }
                n = n + 1;
            }
            i = i + 1;
        }
        None
    }
}

/// `a` and `b` hold the same visual effect.
pub open spec fn vfx_same(a: Vfx, b: Vfx) -> bool {
    a.frames@ == b.frames@ && a.cur_idx == b.cur_idx
}

/// `a` and `b` are the same melee attack.
pub open spec fn melee_same(a: MeleeAtk, b: MeleeAtk) -> bool {
    &&& a.effects@ == b.effects@
    &&& a.place@ == b.place@
    &&& a.fx@.len() == b.fx@.len()
    &&& forall|k: int| 0 <= k < a.fx@.len() ==> (#[trigger] a.fx@[k]).0 == b.fx@[k].0 && vfx_same(a.fx@[k].1, b.fx@[k].1)
    &&& vfx_same(a.miss_fx, b.miss_fx)
}

/// `a` and `b` are the same ranged attack.
pub open spec fn ranged_same(a: RangedAtk, b: RangedAtk) -> bool {
    &&& a.effects@ == b.effects@
    &&& a.range == b.range
    &&& a.line_fx == b.line_fx
    &&& a.fx@.len() == b.fx@.len()
    &&& forall|k: int| 0 <= k < a.fx@.len() ==> (#[trigger] a.fx@[k]).0 == b.fx@[k].0 && vfx_same(a.fx@[k].1, b.fx@[k].1)
}

/// `a` and `b` are the same attack pattern.
pub open spec fn pattern_same(a: AtkPat, b: AtkPat) -> bool {
    &&& a.melee_atks@.len() == b.melee_atks@.len()
    &&& forall|i: int|
        0 <= i < a.melee_atks@.len() ==> (#[trigger] a.melee_atks@[i]).0 == b.melee_atks@[i].0 && a.atks_of(i).len()
            == b.atks_of(i).len() && forall|j: int| 0 <= j < a.atks_of(i).len() ==> melee_same(#[trigger] a.atks_of(i)[j], b.atks_of(i)[j])
    &&& a.ranged_atks@.len() == b.ranged_atks@.len()
    &&& forall|k: int| 0 <= k < a.ranged_atks@.len() ==> ranged_same(#[trigger] a.ranged_atks@[k], b.ranged_atks@[k])
}

fn copy_effects(v: &Vec<Effect>) -> (r: Vec<Effect>)
    ensures
        r@ == v@,
{
    let mut r: Vec<Effect> = Vec::new();
    let mut i: usize = 0;
    while i < v.len()
        invariant
            i <= v@.len(),
            r@ == v@.take(i as int),
        decreases v@.len() - i,
    {
        r.push(v[i]);
        i = i + 1;
        assert(r@ =~= v@.take(i as int));
    }
    assert(r@ =~= v@);
    r
}

fn copy_points(v: &Vec<Point>) -> (r: Vec<Point>)
    ensures
        r@ == v@,
{
    let mut r: Vec<Point> = Vec::new();
    let mut i: usize = 0;
    while i < v.len()
        invariant
            i <= v@.len(),
            r@ == v@.take(i as int),
        decreases v@.len() - i,
    {
        r.push(v[i]);
        i = i + 1;
        assert(r@ =~= v@.take(i as int));
    }
    assert(r@ =~= v@);
    r
}

fn copy_fx(v: &Vec<(Point, Vfx)>) -> (r: Vec<(Point, Vfx)>)
    ensures
        r@.len() == v@.len(),
        forall|k: int| 0 <= k < v@.len() ==> (#[trigger] r@[k]).0 == v@[k].0 && vfx_same(r@[k].1, v@[k].1),
{
    let mut r: Vec<(Point, Vfx)> = Vec::new();
    let mut i: usize = 0;
    while i < v.len()
        invariant
            i <= v@.len(),
            r@.len() == i,
            forall|k: int| 0 <= k < i ==> (#[trigger] r@[k]).0 == v@[k].0 && vfx_same(r@[k].1, v@[k].1),
        decreases v@.len() - i,
    {
        r.push((v[i].0, v[i].1.duplicate()));
        i = i + 1;
    }
    r
}

impl MeleeAtk {
    /// A copy of this attack.
    pub fn duplicate(&self) -> (r: MeleeAtk)
        ensures
            melee_same(r, *self),
    {
        MeleeAtk {
            effects: copy_effects(&self.effects),
            place: copy_points(&self.place),
            fx: copy_fx(&self.fx),
            miss_fx: self.miss_fx.duplicate(),
        }
    }
}

impl AtkPat {
    /// A copy of this pattern.
    pub fn duplicate(&self) -> (r: AtkPat)
        ensures
            pattern_same(r, *self),
    {
        let mut melee: Vec<(Point, Vec<MeleeAtk>)> = Vec::new();
        let mut i: usize = 0;
        while i < self.melee_atks.len()
            invariant
                i <= self.melee_atks@.len(),
                melee@.len() == i,
                forall|i2: int|
                    0 <= i2 < i ==> (#[trigger] melee@[i2]).0 == self.melee_atks@[i2].0 && melee@[i2].1@.len()
                        == self.atks_of(i2).len() && forall|j: int|
                        0 <= j < melee@[i2].1@.len() ==> melee_same(#[trigger] melee@[i2].1@[j], self.atks_of(i2)[j]),
            decreases self.melee_atks@.len() - i,
        {
            let src = &self.melee_atks[i].1;
            let mut atks: Vec<MeleeAtk> = Vec::new();
            let mut j: usize = 0;
            while j < src.len()
                invariant
                    j <= src@.len(),
                    atks@.len() == j,
                    forall|j2: int| 0 <= j2 < j ==> melee_same(#[trigger] atks@[j2], src@[j2]),
                decreases src@.len() - j,
            {
                atks.push(src[j].duplicate());
                j = j + 1;
            }
            melee.push((self.melee_atks[i].0, atks));
            i = i + 1;
        }
        let mut ranged: Vec<RangedAtk> = Vec::new();
        let mut k: usize = 0;
        while k < self.ranged_atks.len()
            invariant
                k <= self.ranged_atks@.len(),
                ranged@.len() == k,
                forall|k2: int| 0 <= k2 < k ==> ranged_same(#[trigger] ranged@[k2], self.ranged_atks@[k2]),
            decreases self.ranged_atks@.len() - k,
        {
            let a = &self.ranged_atks[k];
            ranged.push(RangedAtk {
                effects: copy_effects(&a.effects),
                range: a.range,
                fx: copy_fx(&a.fx),
                line_fx: a.line_fx,
            });
            k = k + 1;
        }
        AtkPat { melee_atks: melee, ranged_atks: ranged }
    }
}

/// Inverse lookup: `target` is among the cells that the attacks in the `i`th
/// direction reach from `p` exactly when `p` is among the cells from which
/// those attacks reach `target`.
pub proof fn lemma_attack_positions_inverse(pat: AtkPat, i: int, p: Point, target: Point)
    requires
        pat.wf(),
        0 <= i < pat.melee_atks@.len(),
        p.bounded(),
        target.bounded(),
    ensures
        atks_plus(p, pat.atks_of(i)).contains(target) <==> atks_minus(target, pat.atks_of(i)).contains(p),
{
    lemma_atks_inverse(pat.atks_of(i), p, target);
}

proof fn lemma_atks_inverse(atks: Seq<MeleeAtk>, p: Point, target: Point)
    requires
        forall|j: int| 0 <= j < atks.len() ==> (#[trigger] atks[j]).wf(),
        p.bounded(),
        target.bounded(),
    ensures
        atks_plus(p, atks).contains(target) <==> atks_minus(target, atks).contains(p),
    decreases atks.len(),
{
    if atks.len() > 0 {
        let rest = atks.drop_last();
        assert forall|j: int| 0 <= j < rest.len() implies (#[trigger] rest[j]).wf() by {
            assert(rest[j] == atks[j]);
        }
        lemma_atks_inverse(rest, p, target);
        let last = atks.last();
        assert(last == atks[atks.len() - 1]);
        let pl = plus_each(p, last.place@);
        let mi = minus_each(target, last.place@);
        assert(pl.contains(target) <==> mi.contains(p)) by {
            if pl.contains(target) {
                let k = choose|k: int| 0 <= k < pl.len() && pl[k] == target;
                assert(last.place@[k].small());
                assert(mi[k] == p);
            }
            if mi.contains(p) {
                let k = choose|k: int| 0 <= k < mi.len() && mi[k] == p;
                assert(last.place@[k].small());
                assert(pl[k] == target);
            }
        }
        let a = atks_plus(p, rest);
        let b = atks_minus(target, rest);
        assert(atks_plus(p, atks) == a + pl);
        assert(atks_minus(target, atks) == b + mi);
        assert((a + pl).contains(target) <==> a.contains(target) || pl.contains(target)) by {
            if (a + pl).contains(target) {
                let k = choose|k: int| 0 <= k < (a + pl).len() && (a + pl)[k] == target;
                if k < a.len() { assert(a[k] == target); } else { assert(pl[k - a.len()] == target); }
            }
            if a.contains(target) {
                let k = choose|k: int| 0 <= k < a.len() && a[k] == target;
                assert((a + pl)[k] == target);
            }
            if pl.contains(target) {
                let k = choose|k: int| 0 <= k < pl.len() && pl[k] == target;
                assert((a + pl)[k + a.len()] == target);
            }
        }
        assert((b + mi).contains(p) <==> b.contains(p) || mi.contains(p)) by {
            if (b + mi).contains(p) {
                let k = choose|k: int| 0 <= k < (b + mi).len() && (b + mi)[k] == p;
                if k < b.len() { assert(b[k] == p); } else { assert(mi[k - b.len()] == p); }
            }
            if b.contains(p) {
                let k = choose|k: int| 0 <= k < b.len() && b[k] == p;
                assert((b + mi)[k] == p);
            }
            if mi.contains(p) {
                let k = choose|k: int| 0 <= k < mi.len() && mi[k] == p;
                assert((b + mi)[k + b.len()] == p);
            }
        }
    }
}

} // verus!
