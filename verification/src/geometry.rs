//! Integer plane geometry for the card pipeline.
//!
//! Every geometric comparison the pipeline makes is carried out on integers:
//! distances are compared through their squares, polygon areas are kept
//! doubled (the shoelace sum before halving), and the one square root that is
//! needed (a side length in pixels) is a rounded integer square root.

use vstd::prelude::*;

verus! {

/// Largest coordinate magnitude the pipeline accepts.  Camera frames are a
/// few thousand pixels across; a million leaves room for any sensor while
/// keeping every intermediate product comfortably inside `i64` and `u64`.
pub const COORD_LIMIT: i64 = 1048576;

/// Largest number of points accepted in one contour.
pub const MAX_CONTOUR_POINTS: usize = 1000000;

/// Upper bound on a squared distance between in-range points and on the
/// doubled area of a quadrilateral with in-range corners: `8 * COORD_LIMIT^2`.
pub const GEOM_BOUND: u64 = 8 * 1048576 * 1048576;

/// An integer pixel position.
#[derive(Clone, Copy, PartialEq, Eq, Structural, Debug)]
pub struct Point {
    pub x: i64,
    pub y: i64,
}

/// The four corners of a rotated rectangle, in the order the fit returned
/// them.
#[derive(Clone, Copy, PartialEq, Eq, Structural, Debug)]
pub struct Quad {
    pub p0: Point,
    pub p1: Point,
    pub p2: Point,
    pub p3: Point,
}

pub open spec fn pt_in_range(p: Point) -> bool {
    &&& -COORD_LIMIT <= p.x <= COORD_LIMIT
    &&& -COORD_LIMIT <= p.y <= COORD_LIMIT
}

pub open spec fn quad_in_range(q: Quad) -> bool {
    pt_in_range(q.p0) && pt_in_range(q.p1) && pt_in_range(q.p2) && pt_in_range(q.p3)
}

pub open spec fn contour_in_range(c: Seq<Point>) -> bool {
    &&& c.len() <= MAX_CONTOUR_POINTS
    &&& forall|i: int| 0 <= i < c.len() ==> pt_in_range(#[trigger] c[i])
}

pub open spec fn abs_int(v: int) -> int {
    if v >= 0 {
        v
    } else {
        -v
    }
}

/// Squared Euclidean distance between `(ax, ay)` and `(bx, by)`.
pub open spec fn spec_dist_sq(ax: int, ay: int, bx: int, by: int) -> int {
    (bx - ax) * (bx - ax) + (by - ay) * (by - ay)
}

proof fn lemma_square_bound(a: int, m: int)
    by (nonlinear_arith)
    requires
        -m <= a <= m,
        0 <= m,
    ensures
        0 <= a * a <= m * m,
{
}

proof fn lemma_mul_bound(a: int, b: int, m: int)
    by (nonlinear_arith)
    requires
        -m <= a <= m,
        -m <= b <= m,
        0 <= m,
    ensures
        -(m * m) <= a * b <= m * m,
{
}

pub fn dist_sq(ax: i64, ay: i64, bx: i64, by: i64) -> (r: u64)
    requires
        -COORD_LIMIT <= ax <= COORD_LIMIT,
        -COORD_LIMIT <= ay <= COORD_LIMIT,
        -COORD_LIMIT <= bx <= COORD_LIMIT,
        -COORD_LIMIT <= by <= COORD_LIMIT,
    ensures
        r == spec_dist_sq(ax as int, ay as int, bx as int, by as int),
        r <= GEOM_BOUND,
{
    let dx: i64 = bx - ax;
    let dy: i64 = by - ay;
    proof {
        lemma_square_bound(dx as int, 2097152int);
        lemma_square_bound(dy as int, 2097152int);
    }
    (dx * dx + dy * dy) as u64
}

/// The cross product term of the shoelace formula.
pub open spec fn cross(a: Point, b: Point) -> int {
    a.x * b.y - b.x * a.y
}

/// Sum of the shoelace terms of the closed polygon `c` from index `i` on;
/// the edge leaving the last point returns to the first.
pub open spec fn shoelace_from(c: Seq<Point>, i: int) -> int
    decreases c.len() - i,
{
    if i < 0 || i >= c.len() {
        0
    } else {
        cross(c[i], c[if i + 1 == c.len() { 0int } else { i + 1 }]) + shoelace_from(c, i + 1)
    }
}

/// Twice the absolute polygon area of the closed point sequence `c`; the
/// shoelace sum before halving, so that it stays an integer.
pub open spec fn spec_area2(c: Seq<Point>) -> int {
    abs_int(shoelace_from(c, 0))
}

pub open spec fn quad_seq(q: Quad) -> Seq<Point> {
    seq![q.p0, q.p1, q.p2, q.p3]
}

/// Twice the absolute polygon area of the four corners of `q`.
pub open spec fn quad_area2(q: Quad) -> int {
    spec_area2(quad_seq(q))
}

/// Twice the absolute polygon area of `c`, by the shoelace formula.
pub fn polygon_area2(c: &Vec<Point>) -> (r: u64)
    requires
        contour_in_range(c@),
    ensures
        r == spec_area2(c@),
        r as int <= (c@.len() as int) * 2199023255552,
{
    let n: usize = c.len();
    let mut acc: i64 = 0;
    let mut i: usize = 0;
    while i < n
        invariant
            n == c@.len(),
            contour_in_range(c@),
            0 <= i <= n,
            acc + shoelace_from(c@, i as int) == shoelace_from(c@, 0),
            -(i as int) * 2199023255552 <= acc <= (i as int) * 2199023255552,
        decreases n - i,
    {
        let j: usize = if i + 1 == n {
            0
        } else {
            i + 1
        };
        proof {
            lemma_mul_bound(c@[i as int].x as int, c@[j as int].y as int, COORD_LIMIT as int);
            lemma_mul_bound(c@[j as int].x as int, c@[i as int].y as int, COORD_LIMIT as int);
        }
        let term: i64 = c[i].x * c[j].y - c[j].x * c[i].y;
        acc = acc + term;
        i = i + 1;
    }
    if acc >= 0 {
        acc as u64
    } else {
        (-acc) as u64
    }
}

/// The doubled area of a quadrilateral with in-range corners is bounded by
/// `GEOM_BOUND`.
pub proof fn lemma_quad_area2_bound(q: Quad)
    requires
        quad_in_range(q),
    ensures
        0 <= quad_area2(q) <= GEOM_BOUND,
{
    let s = quad_seq(q);
    reveal_with_fuel(shoelace_from, 6);
    lemma_mul_bound(s[0].x as int, s[1].y as int, COORD_LIMIT as int);
    lemma_mul_bound(s[1].x as int, s[0].y as int, COORD_LIMIT as int);
    lemma_mul_bound(s[1].x as int, s[2].y as int, COORD_LIMIT as int);
    lemma_mul_bound(s[2].x as int, s[1].y as int, COORD_LIMIT as int);
    lemma_mul_bound(s[2].x as int, s[3].y as int, COORD_LIMIT as int);
    lemma_mul_bound(s[3].x as int, s[2].y as int, COORD_LIMIT as int);
    lemma_mul_bound(s[3].x as int, s[0].y as int, COORD_LIMIT as int);
    lemma_mul_bound(s[0].x as int, s[3].y as int, COORD_LIMIT as int);
    assert(shoelace_from(s, 0) == cross(s[0], s[1]) + cross(s[1], s[2]) + cross(s[2], s[3])
        + cross(s[3], s[0]));
}

/// Twice the absolute polygon area of the corners of `q`.
pub fn quad_area2_exec(q: &Quad) -> (r: u64)
    requires
        quad_in_range(*q),
    ensures
        r == quad_area2(*q),
        r <= GEOM_BOUND,
{
    let pts: Vec<Point> = vec![q.p0, q.p1, q.p2, q.p3];
    proof {
        assert(pts@ =~= quad_seq(*q));
        lemma_quad_area2_bound(*q);
    }
    polygon_area2(&pts)
}

/// Division by four that truncates toward zero, as machine division does.
pub open spec fn div4_trunc(v: int) -> int {
    if v >= 0 {
        v / 4
    } else {
        -((-v) / 4)
    }
}

/// Coordinate-wise mean of the four corners, truncated toward zero.
pub open spec fn centroid_x(q: Quad) -> int {
    div4_trunc(q.p0.x + q.p1.x + q.p2.x + q.p3.x)
}

pub open spec fn centroid_y(q: Quad) -> int {
    div4_trunc(q.p0.y + q.p1.y + q.p2.y + q.p3.y)
}

fn div4_trunc_exec(v: i64) -> (r: i64)
    requires
        -4 * COORD_LIMIT <= v <= 4 * COORD_LIMIT,
    ensures
        r == div4_trunc(v as int),
        -COORD_LIMIT <= r <= COORD_LIMIT,
{
    if v >= 0 {
        ((v as u64) / 4) as i64
    } else {
        -((((-v) as u64) / 4) as i64)
    }
}

pub fn centroid(q: &Quad) -> (r: (i64, i64))
    requires
        quad_in_range(*q),
    ensures
        r.0 == centroid_x(*q),
        r.1 == centroid_y(*q),
        -COORD_LIMIT <= r.0 <= COORD_LIMIT,
        -COORD_LIMIT <= r.1 <= COORD_LIMIT,
{
    let sx: i64 = q.p0.x + q.p1.x + q.p2.x + q.p3.x;
    let sy: i64 = q.p0.y + q.p1.y + q.p2.y + q.p3.y;
    (div4_trunc_exec(sx), div4_trunc_exec(sy))
}

/// Whether a squared distance `d2` falls strictly inside the equivalent
/// circle of a region of doubled area `area2`.  The circle's radius is
/// `sqrt(area / pi)`, so `d < r` means `2 * pi * d2 < area2`; with `pi`
/// as the classical bound `355/113` this is the exact integer test below.
pub open spec fn within_radius(d2: int, area2: int) -> bool {
    710 * d2 < 113 * area2
}

pub fn within_radius_check(d2: u64, area2: u64) -> (r: bool)
    requires
        d2 <= GEOM_BOUND,
        area2 <= GEOM_BOUND,
    ensures
        r == within_radius(d2 as int, area2 as int),
{
    710 * d2 < 113 * area2
}

/// Whether `r` is the integer nearest to the square root of `n` (halves
/// rounding up): the intervals `(r^2 - r, r^2 + r]` tile the positive line.
pub open spec fn is_rounded_sqrt(n: int, r: int) -> bool {
    if n == 0 {
        r == 0
    } else {
        r >= 1 && r * r - r < n <= r * r + r
    }
}

/// The rounded integer square root of `n`, as a spec value; well defined on
/// the nonnegative integers because the rounding intervals tile them.
pub open spec fn spec_rsqrt(n: int) -> int {
    choose|r: int| is_rounded_sqrt(n, r)
}

pub proof fn lemma_rounded_sqrt_unique(n: int, a: int, b: int)
    by (nonlinear_arith)
    requires
        n >= 0,
        is_rounded_sqrt(n, a),
        is_rounded_sqrt(n, b),
    ensures
        a == b,
{
}

proof fn lemma_rounded_sqrt_exists(n: int)
    requires
        n >= 0,
    ensures
        exists|r: int| is_rounded_sqrt(n, r),
    decreases n,
{
    if n == 0 {
        assert(is_rounded_sqrt(0, 0));
    } else if n == 1 {
        assert(is_rounded_sqrt(1, 1));
    } else {
        let m = n - 1;
        lemma_rounded_sqrt_exists(m);
        let r = choose|r: int| is_rounded_sqrt(m, r);
        assert(r >= 1);
        if n <= r * r + r {
            assert(is_rounded_sqrt(n, r));
        } else {
            assert((r + 1) * (r + 1) - (r + 1) == r * r + r) by (nonlinear_arith);
            assert((r + 1) * (r + 1) + (r + 1) == r * r + 3 * r + 2) by (nonlinear_arith);
            assert(is_rounded_sqrt(n, r + 1));
        }
    }
}

/// The spec-level rounded square root meets its characterisation and never
/// exceeds its argument.
pub proof fn lemma_rsqrt_props(n: int)
    requires
        0 <= n,
    ensures
        is_rounded_sqrt(n, spec_rsqrt(n)),
        0 <= spec_rsqrt(n) <= n,
{
    lemma_rounded_sqrt_exists(n);
    let r = spec_rsqrt(n);
    assert(is_rounded_sqrt(n, r));
    if n != 0 {
        assert(r * r - r >= r - 1) by (nonlinear_arith)
            requires
                r >= 1,
        ;
    }
}

/// The squared distance is nonnegative, and bounded by `GEOM_BOUND` for
/// in-range points.
pub proof fn lemma_dist_sq_bound(ax: int, ay: int, bx: int, by: int)
    by (nonlinear_arith)
    requires
        -1048576 <= ax <= 1048576,
        -1048576 <= ay <= 1048576,
        -1048576 <= bx <= 1048576,
        -1048576 <= by <= 1048576,
    ensures
        0 <= spec_dist_sq(ax, ay, bx, by) <= 8796093022208,
{
}

/// Integer square root of `n`, rounded to the nearest integer.
pub fn rounded_sqrt(n: u64) -> (r: u64)
    requires
        n <= GEOM_BOUND,
    ensures
        is_rounded_sqrt(n as int, r as int),
        r <= 4194304,
{
    let mut lo: u64 = 0;
    let mut hi: u64 = 4194304;
    proof {
        assert((4194304int) * (4194304int) > GEOM_BOUND);
    }
    while lo + 1 < hi
        invariant
            lo < hi <= 4194304,
            (lo as int) * (lo as int) <= n,
            n < (hi as int) * (hi as int),
        decreases hi - lo,
    {
        let mid: u64 = lo + (hi - lo) / 2;
        proof {
            lemma_square_bound(mid as int, 4194304int);
        }
        if mid * mid <= n {
            lo = mid;
        } else {
            hi = mid;
        }
    }
    proof {
        lemma_square_bound(lo as int + 1, 4194305int);
        assert((lo as int + 1) * (lo as int + 1) == (lo as int) * (lo as int) + 2 * (lo as int)
            + 1) by (nonlinear_arith);
        assert((lo as int) >= 1 ==> (lo as int) * (lo as int) >= (lo as int)) by (nonlinear_arith);
        assert((lo as int) == 0 ==> (lo as int) * (lo as int) == 0) by (nonlinear_arith);
    }
    if n > lo * lo + lo {
        lo + 1
    } else {
        lo
    }
}

} // verus!
