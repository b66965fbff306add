//! Integer points on the grid and the fixed neighbour sets.

use vstd::prelude::*;

verus! {

/// Largest coordinate magnitude that positions on a map may have. Offsets of
/// attacks and movement stay within [`OFFSET_MAX`], so a position plus an
/// offset always fits in an `i32`.
pub const COORD_MAX: i32 = 0x3fff_ffff;

/// Largest coordinate magnitude of a relative offset.
pub const OFFSET_MAX: i32 = 0xffff;

/// A 2D integer vector.
#[derive(Clone, Copy, Debug, PartialEq, Eq, Structural, Hash)]
pub struct Point {
    pub x: i32,
    pub y: i32,
}

impl Point {
    /// Both coordinates are at most [`COORD_MAX`] in magnitude.
    pub open spec fn bounded(self) -> bool {
        -COORD_MAX <= self.x <= COORD_MAX && -COORD_MAX <= self.y <= COORD_MAX
    }

    /// Both coordinates are at most [`OFFSET_MAX`] in magnitude.
    pub open spec fn small(self) -> bool {
        -OFFSET_MAX <= self.x <= OFFSET_MAX && -OFFSET_MAX <= self.y <= OFFSET_MAX
    }

    /// `self + o` fits in an `i32` on both axes.
    pub open spec fn can_add(self, o: Point) -> bool {
        i32::MIN <= self.x + o.x <= i32::MAX && i32::MIN <= self.y + o.y <= i32::MAX
    }

    /// `self - o` fits in an `i32` on both axes.
    pub open spec fn can_sub(self, o: Point) -> bool {
        i32::MIN <= self.x - o.x <= i32::MAX && i32::MIN <= self.y - o.y <= i32::MAX
    }

    pub open spec fn plus(self, o: Point) -> Point {
        Point { x: (self.x + o.x) as i32, y: (self.y + o.y) as i32 }
    }

    pub open spec fn minus(self, o: Point) -> Point {
        Point { x: (self.x - o.x) as i32, y: (self.y - o.y) as i32 }
    }

    pub open spec fn dist_squared_spec(self, o: Point) -> int {
        (self.x - o.x) * (self.x - o.x) + (self.y - o.y) * (self.y - o.y)
    }

    pub fn new(x: i32, y: i32) -> (r: Point)
        ensures
            r.x == x,
            r.y == y,
    {
        Point { x, y }
    }

    /// Component-wise sum.
    pub fn add(self, o: Point) -> (r: Point)
        requires
            self.can_add(o),
        ensures
            r == self.plus(o),
            r.x == self.x + o.x,
            r.y == self.y + o.y,
    {
        Point { x: self.x + o.x, y: self.y + o.y }
    }

    /// Component-wise difference.
    pub fn sub(self, o: Point) -> (r: Point)
        requires
            self.can_sub(o),
        ensures
            r == self.minus(o),
            r.x == self.x - o.x,
            r.y == self.y - o.y,
    {
        Point { x: self.x - o.x, y: self.y - o.y }
    }

    /// Component-wise sum, or `None` where a coordinate would leave `i32`.
    pub fn checked_add(self, o: Point) -> (r: Option<Point>)
        ensures
            r.is_some() <==> self.can_add(o),
            r.is_some() ==> r.unwrap() == self.plus(o),
    {
        let x = self.x as i64 + o.x as i64;
        let y = self.y as i64 + o.y as i64;
        if x < i32::MIN as i64 || x > i32::MAX as i64 || y < i32::MIN as i64 || y
            > i32::MAX as i64 {
            None
        } else {
            Some(Point { x: x as i32, y: y as i32 })
        }
    }

    /// Squared Euclidean distance.
    pub fn dist_squared(self, o: Point) -> (r: u128)
        ensures
            r == self.dist_squared_spec(o),
    {
        let dx: i64 = self.x as i64 - o.x as i64;
        let dy: i64 = self.y as i64 - o.y as i64;
        let ax: u128 = if dx < 0 { (-dx) as u128 } else { dx as u128 };
        let ay: u128 = if dy < 0 { (-dy) as u128 } else { dy as u128 };
        assert(ax * ax == dx * dx) by (nonlinear_arith)
            requires ax == dx || ax == -dx;
        assert(ay * ay == dy * dy) by (nonlinear_arith)
            requires ay == dy || ay == -dy;
        assert(ax * ax <= 0x1_0000_0000 * 0x1_0000_0000) by (nonlinear_arith)
            requires 0 <= ax <= 0x1_0000_0000;
        assert(ay * ay <= 0x1_0000_0000 * 0x1_0000_0000) by (nonlinear_arith)
            requires 0 <= ay <= 0x1_0000_0000;
        ax * ax + ay * ay
    }
}

/// The four orthogonal unit offsets, in their canonical order: down, left,
/// up, right.
pub open spec fn adjacent4() -> Seq<Point> {
    seq![
        Point { x: 0, y: 1 },
        Point { x: -1i32, y: 0 },
        Point { x: 0, y: -1i32 },
        Point { x: 1, y: 0 },
    ]
}

/// The eight king-move unit offsets, in their canonical order: the four
/// orthogonal ones as [`adjacent4`] orders them, then the diagonals.
pub open spec fn adjacent8() -> Seq<Point> {
    seq![
        Point { x: 0, y: 1 },
        Point { x: -1i32, y: 0 },
        Point { x: 0, y: -1i32 },
        Point { x: 1, y: 0 },
        Point { x: -1i32, y: -1i32 },
        Point { x: 1, y: -1i32 },
        Point { x: -1i32, y: 1 },
        Point { x: 1, y: 1 },
    ]
}

/// The place of a king-move offset in the canonical order; 8 for any other vector.
pub open spec fn dir_rank(p: Point) -> int {
    if p == (Point { x: 0, y: 1 }) {
        0
    } else if p == (Point { x: -1i32, y: 0 }) {
        1
    } else if p == (Point { x: 0, y: -1i32 }) {
        2
    } else if p == (Point { x: 1, y: 0 }) {
        3
    } else if p == (Point { x: -1i32, y: -1i32 }) {
        4
    } else if p == (Point { x: 1, y: -1i32 }) {
        5
    } else if p == (Point { x: -1i32, y: 1 }) {
        6
    } else if p == (Point { x: 1, y: 1 }) {
        7
    } else {
        8
    }
}

/// Returns the four orthogonal neighbour offsets of the origin.
pub fn get_all_adjacent() -> (r: Vec<Point>)
    ensures
        r@ == adjacent4(),
{
    let r = vec![Point::new(0, 1), Point::new(-1, 0), Point::new(0, -1), Point::new(1, 0)];
    assert(r@ =~= adjacent4());
    r
}

/// Returns the eight king-move neighbour offsets of the origin.
pub fn get_all_adjacent_diagonal() -> (r: Vec<Point>)
    ensures
        r@ == adjacent8(),
{
    let r = vec![
        Point::new(0, 1),
        Point::new(-1, 0),
        Point::new(0, -1),
        Point::new(1, 0),
        Point::new(-1, -1),
        Point::new(1, -1),
        Point::new(-1, 1),
        Point::new(1, 1),
    ];
    assert(r@ =~= adjacent8());
    r
}

/// Absolute value.
pub open spec fn abs_spec(v: int) -> int {
    if v < 0 {
        -v
    } else {
        v
    }
}

/// Sign: -1, 0 or 1.
pub open spec fn sign_spec(v: int) -> int {
    if v < 0 {
        -1
    } else if v > 0 {
        1
    } else {
        0
    }
}

/// Number of steps of the line from `a` to `b`: the larger axis distance.
pub open spec fn line_steps(a: Point, b: Point) -> int {
    let dx = abs_spec(b.x - a.x);
    let dy = abs_spec(b.y - a.y);
    if dx > dy {
        dx
    } else {
        dy
    }
}

/// The offset along one axis after `i` of `n` steps towards a total of `d`,
/// rounded to the nearest cell (halves away from the start).
pub open spec fn line_offset(d: int, i: int, n: int) -> int {
    if n == 0 {
        0
    } else {
        sign_spec(d) * ((2 * i * abs_spec(d) + n) / (2 * n))
    }
}

/// The `i`th cell of the line from `a` to `b`.
pub open spec fn line_point(a: Point, b: Point, i: int) -> Point {
    let n = line_steps(a, b);
    Point {
        x: (a.x + line_offset(b.x - a.x, i, n)) as i32,
        y: (a.y + line_offset(b.y - a.y, i, n)) as i32,
    }
}

proof fn lemma_line_offset_bounds(d: int, i: int, n: int)
    requires
        0 <= i <= n,
        abs_spec(d) <= n,
    ensures
        0 <= (2 * i * abs_spec(d) + n) / (2 * n) <= abs_spec(d) || n == 0,
        i == n ==> line_offset(d, i, n) == d,
        i == 0 ==> line_offset(d, i, n) == 0,
{
    if n > 0 {
        let ad = abs_spec(d);
        assert(2 * i * ad <= 2 * n * ad) by (nonlinear_arith)
            requires 0 <= i <= n, 0 <= ad;
        assert(0 <= 2 * i * ad) by (nonlinear_arith)
            requires 0 <= i, 0 <= ad;
        assert((2 * i * ad + n) / (2 * n) <= ad) by (nonlinear_arith)
            requires 2 * i * ad <= 2 * n * ad, n > 0, 0 <= ad;
        assert(0 <= (2 * i * ad + n) / (2 * n)) by (nonlinear_arith)
            requires 0 <= 2 * i * ad, n > 0;
        if i == n {
            assert((2 * n * ad + n) / (2 * n) == ad) by (nonlinear_arith)
                requires n > 0, 0 <= ad;
        }
        if i == 0 {
            assert((2 * 0 * ad + n) / (2 * n) == 0) by (nonlinear_arith)
                requires n > 0;
        }
    }
}

/// The cells of the line from `a` to `b`, both included: one per step along
/// the longer axis, the other axis rounded to the nearest cell.
pub fn plot_line(a: Point, b: Point) -> (r: Vec<Point>)
    ensures
        r@.len() == line_steps(a, b) + 1,
        forall|i: int| 0 <= i < r@.len() ==> #[trigger] r@[i] == line_point(a, b, i),
        r@[0] == a,
        r@[r@.len() - 1] == b,
{
    let dx: i64 = b.x as i64 - a.x as i64;
    let dy: i64 = b.y as i64 - a.y as i64;
    let adx: u64 = if dx < 0 { (-dx) as u64 } else { dx as u64 };
    let ady: u64 = if dy < 0 { (-dy) as u64 } else { dy as u64 };
    let n: u64 = if adx > ady { adx } else { ady };
    let mut r: Vec<Point> = Vec::new();
    let mut i: u64 = 0;
    while i <= n
        invariant
            dx == b.x - a.x,
            dy == b.y - a.y,
            adx == abs_spec(dx as int),
            ady == abs_spec(dy as int),
            n == line_steps(a, b),
            n <= 0x1_0000_0000,
            i <= n + 1,
            r@.len() == i,
            forall|k: int| 0 <= k < i ==> #[trigger] r@[k] == line_point(a, b, k),
        decreases n + 1 - i,
    {
        proof {
            lemma_line_offset_bounds(dx as int, i as int, n as int);
            lemma_line_offset_bounds(dy as int, i as int, n as int);
        }
        assert(2 * (i as int) * (adx as int) <= 2 * 0x1_0000_0000 * 0x1_0000_0000) by (nonlinear_arith)
            requires i <= n, n <= 0x1_0000_0000, adx <= n;
        assert(2 * (i as int) * (ady as int) <= 2 * 0x1_0000_0000 * 0x1_0000_0000) by (nonlinear_arith)
            requires i <= n, n <= 0x1_0000_0000, ady <= n;
        let qx: u128 = if n == 0 {
            0
        } else {
            (2 * (i as u128) * (adx as u128) + n as u128) / (2 * n as u128)
        };
        let qy: u128 = if n == 0 {
            0
        } else {
            (2 * (i as u128) * (ady as u128) + n as u128) / (2 * n as u128)
        };
        assert(qx <= adx);
        assert(qy <= ady);
        let ox: i64 = if dx < 0 { -(qx as i64) } else { qx as i64 };
        let oy: i64 = if dy < 0 { -(qy as i64) } else { qy as i64 };
        assert(ox == line_offset(dx as int, i as int, n as int)) by {
            if n > 0 {
                assert(qx == (2 * (i as int) * abs_spec(dx as int) + n) / (2 * n));
                if dx < 0 { assert(sign_spec(dx as int) == -1); } else if dx > 0 { assert(sign_spec(dx as int) == 1); } else { assert(sign_spec(dx as int) == 0); }
            }
        }
        assert(oy == line_offset(dy as int, i as int, n as int)) by {
            if n > 0 {
                assert(qy == (2 * (i as int) * abs_spec(dy as int) + n) / (2 * n));
                if dy < 0 { assert(sign_spec(dy as int) == -1); } else if dy > 0 { assert(sign_spec(dy as int) == 1); } else { assert(sign_spec(dy as int) == 0); }
            }
        }
        let px: i64 = a.x as i64 + ox;
        let py: i64 = a.y as i64 + oy;
        assert(i32::MIN <= px <= i32::MAX) by {
            if dx < 0 { assert(dx <= ox <= 0); } else { assert(0 <= ox <= dx); }
        }
        assert(i32::MIN <= py <= i32::MAX) by {
            if dy < 0 { assert(dy <= oy <= 0); } else { assert(0 <= oy <= dy); }
        }
        r.push(Point { x: px as i32, y: py as i32 });
        i = i + 1;
    }
    proof {
        lemma_line_offset_bounds(dx as int, 0, n as int);
        lemma_line_offset_bounds(dy as int, 0, n as int);
        lemma_line_offset_bounds(dx as int, n as int, n as int);
        lemma_line_offset_bounds(dy as int, n as int, n as int);
        assert(r@[0] == line_point(a, b, 0));
        assert(r@[n as int] == line_point(a, b, n as int));
    }
    r
}

} // verus!
