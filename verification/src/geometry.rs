//! Fixed-point plane geometry: points, displacements, the play-area
//! rectangle, and a verified integer square root.
//!
//! Coordinates are `i64` values in thousandths of a world unit
//! (`COORD_SCALE` units per world unit).

use vstd::prelude::*;

verus! {

/// Number of fixed-point coordinate units in one world unit.
pub const COORD_SCALE: i64 = 1000;

/// Largest coordinate magnitude the library accepts: a machine limit that
/// keeps every squared distance of two in-range points within `i64`.
pub const COORD_LIMIT: i64 = 1_000_000_000;

/// Largest displacement-component magnitude a run action may carry; wide
/// enough for every displacement the boundary redirection can produce on
/// in-range inputs.
pub const STRETCH_LIMIT: i64 = 5_000_000_000;

/// A 2D point or displacement in fixed-point coordinates.
#[derive(Clone, Copy, Debug, PartialEq, Eq, Structural)]
pub struct Vec2 {
    pub x: i64,
    pub y: i64,
}

/// A coordinate small enough that all derived squares stay within `i64`.
pub open spec fn in_range(c: int) -> bool {
    -COORD_LIMIT <= c <= COORD_LIMIT
}

pub open spec fn vec_in_range(v: Vec2) -> bool {
    in_range(v.x as int) && in_range(v.y as int)
}

/// The components fit within a difference of two in-range coordinates.
pub open spec fn diff_in_range(v: Vec2) -> bool {
    -2 * COORD_LIMIT <= v.x <= 2 * COORD_LIMIT && -2 * COORD_LIMIT <= v.y <= 2 * COORD_LIMIT
}

/// Componentwise difference of two points.
pub open spec fn vec_minus(a: Vec2, b: Vec2) -> Vec2 {
    Vec2 { x: (a.x - b.x) as i64, y: (a.y - b.y) as i64 }
}

/// Bound on the components of a displacement handed to the environment.
pub open spec fn stretch_in_limit(v: Vec2) -> bool {
    -STRETCH_LIMIT <= v.x <= STRETCH_LIMIT && -STRETCH_LIMIT <= v.y <= STRETCH_LIMIT
}

pub open spec fn sq(a: int) -> int {
    a * a
}

/// Squared Euclidean length of a displacement.
pub open spec fn sqlen(v: Vec2) -> int {
    sq(v.x as int) + sq(v.y as int)
}

/// Squared Euclidean distance between two points.
pub open spec fn sqdist(a: Vec2, b: Vec2) -> int {
    sq(a.x - b.x) + sq(a.y - b.y)
}

pub open spec fn abs_i(a: int) -> int {
    if a < 0 {
        -a
    } else {
        a
    }
}

/// Sign with zero counted as positive: negative maps to -1, zero and
/// positive map to 1, as the redirection's heading rule wants it.
pub open spec fn sign_of(a: int) -> int {
    if a < 0 {
        -1
    } else {
        1
    }
}

/// Axis-aligned play-area rectangle, inclusive on all four edges.
#[derive(Clone, Copy, Debug, PartialEq, Eq, Structural)]
pub struct PlayArea {
    pub min_x: i64,
    pub min_y: i64,
    pub max_x: i64,
    pub max_y: i64,
}

impl PlayArea {
    /// The rectangle is ordered and its corners are in coordinate range.
    pub open spec fn wf(self) -> bool {
        &&& in_range(self.min_x as int)
        &&& in_range(self.max_x as int)
        &&& in_range(self.min_y as int)
        &&& in_range(self.max_y as int)
        &&& self.min_x <= self.max_x
        &&& self.min_y <= self.max_y
    }

    /// The point lies within the rectangle, edges included.
    pub open spec fn contains_spec(self, p: Vec2) -> bool {
        &&& self.min_x <= p.x <= self.max_x
        &&& self.min_y <= p.y <= self.max_y
    }

    /// Bounding box of two corner points.
    pub fn from_points(a: Vec2, b: Vec2) -> (r: PlayArea)
        requires
            vec_in_range(a),
            vec_in_range(b),
        ensures
            r.wf(),
            r.min_x == if a.x <= b.x { a.x } else { b.x },
            r.max_x == if a.x <= b.x { b.x } else { a.x },
            r.min_y == if a.y <= b.y { a.y } else { b.y },
            r.max_y == if a.y <= b.y { b.y } else { a.y },
    {
        let min_x = if a.x <= b.x { a.x } else { b.x };
        let max_x = if a.x <= b.x { b.x } else { a.x };
        let min_y = if a.y <= b.y { a.y } else { b.y };
        let max_y = if a.y <= b.y { b.y } else { a.y };
        PlayArea { min_x, min_y, max_x, max_y }
    }

    pub fn contains(&self, p: &Vec2) -> (r: bool)
        ensures
            r == self.contains_spec(*p),
    {
        self.min_x <= p.x && p.x <= self.max_x && self.min_y <= p.y && p.y <= self.max_y
    }
}

/// A point moved by a displacement (componentwise sum).
pub open spec fn pos_plus(p: Vec2, d: Vec2) -> Vec2 {
    Vec2 { x: (p.x + d.x) as i64, y: (p.y + d.y) as i64 }
}

/// One coordinate clamped into an ordered interval.
pub open spec fn clamp_coord(v: int, lo: int, hi: int) -> int {
    if v < lo {
        lo
    } else if v > hi {
        hi
    } else {
        v
    }
}

/// A point clamped componentwise into the play area.
pub open spec fn clamp_pos(area: PlayArea, p: Vec2) -> Vec2 {
    Vec2 {
        x: clamp_coord(p.x as int, area.min_x as int, area.max_x as int) as i64,
        y: clamp_coord(p.y as int, area.min_y as int, area.max_y as int) as i64,
    }
}

/// `r` is the integer square root of `n`, rounded down.
pub open spec fn is_isqrt(n: int, r: int) -> bool {
    &&& 0 <= r
    &&& sq(r) <= n
    &&& n < sq(r + 1)
}

/// The integer square root, rounded down, as a mathematical function.
pub open spec fn sqrt_floor(n: int) -> int {
    choose|r: int| #[trigger] is_isqrt(n, r)
}

pub proof fn lemma_sq_le(a: int, b: int)
    by (nonlinear_arith)
    requires
        -b <= a <= b,
    ensures
        0 <= a * a <= b * b,
{
}

pub proof fn lemma_isqrt_exists(n: int)
    requires
        0 <= n,
    ensures
        exists|r: int| is_isqrt(n, r),
    decreases n,
{
    if n == 0 {
        assert(sq(0) == 0 && sq(1) == 1);
        assert(is_isqrt(0, 0));
    } else {
        lemma_isqrt_exists(n - 1);
        let r = choose|r: int| #[trigger] is_isqrt(n - 1, r);
        if n < sq(r + 1) {
            assert(is_isqrt(n, r));
        } else {
            assert(n == sq(r + 1));
            assert((r + 1) * (r + 1) < (r + 2) * (r + 2)) by (nonlinear_arith)
                requires
                    0 <= r,
            ;
            assert(is_isqrt(n, r + 1));
        }
    }
}

pub proof fn lemma_isqrt_unique(n: int, r1: int, r2: int)
    by (nonlinear_arith)
    requires
        0 <= r1,
        r1 * r1 <= n,
        n < (r1 + 1) * (r1 + 1),
        0 <= r2,
        r2 * r2 <= n,
        n < (r2 + 1) * (r2 + 1),
    ensures
        r1 == r2,
{
}

/// `sqrt_floor` meets its defining property on every nonnegative argument.
pub proof fn lemma_sqrt_floor_is(n: int)
    requires
        0 <= n,
    ensures
        is_isqrt(n, sqrt_floor(n)),
{
    lemma_isqrt_exists(n);
}

/// Any witness of `is_isqrt` is `sqrt_floor` itself.
pub proof fn lemma_sqrt_floor_eq(n: int, r: int)
    requires
        0 <= n,
        is_isqrt(n, r),
    ensures
        sqrt_floor(n) == r,
{
    lemma_sqrt_floor_is(n);
    lemma_isqrt_unique(n, r, sqrt_floor(n));
}

/// Integer square root, rounded down.
pub fn isqrt(n: u64) -> (r: u64)
    ensures
        is_isqrt(n as int, r as int),
        r as int == sqrt_floor(n as int),
{
    if n >= 18446744065119617025 {
        proof {
            assert(4294967295int * 4294967295int == 18446744065119617025int);
            assert(4294967296int * 4294967296int == 18446744073709551616int);
            assert(is_isqrt(n as int, 4294967295int));
            lemma_sqrt_floor_eq(n as int, 4294967295int);
        }
        return 4294967295;
    }
    let mut lo: u64 = 0;
    let mut hi: u64 = 4294967295;
    proof {
        assert(4294967296int * 4294967296int == 18446744073709551616int);
    }
    while lo < hi
        invariant
            lo <= hi <= 4294967295,
            (lo as int) * (lo as int) <= n as int,
            (n as int) < (hi as int + 1) * (hi as int + 1),
        decreases hi - lo,
    {
        let mid = lo + (hi - lo + 1) / 2;
        assert(lo < mid && mid <= hi);
        assert((mid as int) * (mid as int) <= 4294967295int * 4294967295int) by (nonlinear_arith)
            requires
                0 <= mid <= 4294967295,
        ;
        let m2 = mid * mid;
        if m2 <= n {
            lo = mid;
        } else {
            assert((mid - 1 + 1) as int * (mid - 1 + 1) as int == (mid as int) * (mid as int));
            hi = mid - 1;
        }
    }
    proof {
        assert(is_isqrt(n as int, lo as int));
        lemma_sqrt_floor_eq(n as int, lo as int);
    }
    lo
}

/// Squared length of a displacement no longer than the difference of two
/// in-range points.
pub fn square_length(v: &Vec2) -> (r: i64)
    requires
        diff_in_range(*v),
    ensures
        r == sqlen(*v),
{
    proof {
        lemma_sq_le(v.x as int, 2_000_000_000);
        lemma_sq_le(v.y as int, 2_000_000_000);
    }
    v.x * v.x + v.y * v.y
}

/// Squared distance between two in-range points.
pub fn square_distance(a: &Vec2, b: &Vec2) -> (r: i64)
    requires
        vec_in_range(*a),
        vec_in_range(*b),
    ensures
        r == sqdist(*a, *b),
{
    let dx = a.x - b.x;
    let dy = a.y - b.y;
    proof {
        lemma_sq_le(dx as int, 2_000_000_000);
        lemma_sq_le(dy as int, 2_000_000_000);
    }
    dx * dx + dy * dy
}

} // verus!
