//! Corner correction and the rectification plan.
//!
//! The rotated-rectangle fit is systematically a little off the detected
//! edge, so each corner is first snapped to the nearest point of the stored
//! contour.  The snapped corners are then mapped onto an upright destination
//! rectangle whose shorter physical side becomes the top edge, which gives a
//! consistently portrait output whatever way the rectangle was wound.  The
//! perspective warp itself consumes this plan outside the library; the plan
//! is a pure function of the track's corners and contour.

use vstd::prelude::*;

use crate::card::Card;
use crate::geometry::{
    dist_sq, is_rounded_sqrt, lemma_dist_sq_bound, lemma_rounded_sqrt_unique, lemma_rsqrt_props,
    pt_in_range, quad_in_range, rounded_sqrt, spec_dist_sq, spec_rsqrt, Point, Quad, COORD_LIMIT,
};

verus! {

/// Index of the contour point nearest to `(qx, qy)` once the scan has
/// reached index `i` with current best index `best`; ties keep the earlier
/// point.
pub open spec fn closest_idx_from(c: Seq<Point>, qx: int, qy: int, i: int, best: int) -> int
    decreases c.len() - i,
{
    if i < 0 || i >= c.len() || best < 0 || best >= c.len() {
        best
    } else if spec_dist_sq(c[i].x as int, c[i].y as int, qx, qy) < spec_dist_sq(
        c[best].x as int,
        c[best].y as int,
        qx,
        qy,
    ) {
        closest_idx_from(c, qx, qy, i + 1, i)
    } else {
        closest_idx_from(c, qx, qy, i + 1, best)
    }
}

/// Index of the contour point nearest to `(qx, qy)`; ties keep the earliest
/// point.
pub open spec fn closest_idx(c: Seq<Point>, qx: int, qy: int) -> int {
    closest_idx_from(c, qx, qy, 1, 0)
}

proof fn lemma_closest_idx_from_min(c: Seq<Point>, qx: int, qy: int, i: int, best: int)
    requires
        0 <= best < c.len(),
        1 <= i,
    ensures
        ({
            let r = closest_idx_from(c, qx, qy, i, best);
            &&& 0 <= r < c.len()
            &&& spec_dist_sq(c[r].x as int, c[r].y as int, qx, qy) <= spec_dist_sq(
                c[best].x as int,
                c[best].y as int,
                qx,
                qy,
            )
            &&& forall|j: int|
                i <= j < c.len() ==> spec_dist_sq(c[r].x as int, c[r].y as int, qx, qy)
                    <= #[trigger] spec_dist_sq(c[j].x as int, c[j].y as int, qx, qy)
        }),
    decreases c.len() - i,
{
    if i >= c.len() {
    } else if spec_dist_sq(c[i].x as int, c[i].y as int, qx, qy) < spec_dist_sq(
        c[best].x as int,
        c[best].y as int,
        qx,
        qy,
    ) {
        lemma_closest_idx_from_min(c, qx, qy, i + 1, i);
    } else {
        lemma_closest_idx_from_min(c, qx, qy, i + 1, best);
    }
}

impl Card {
    /// The point of the stored contour nearest to `(x, y)`, the earliest
    /// such point when several are equally near.
    pub fn get_closest_contour_point(&self, x: i64, y: i64) -> (r: Point)
        requires
            self.wf(),
            self.contour@.len() >= 1,
            -COORD_LIMIT <= x <= COORD_LIMIT,
            -COORD_LIMIT <= y <= COORD_LIMIT,
        ensures
            r == self.contour@[closest_idx(self.contour@, x as int, y as int)],
            pt_in_range(r),
            forall|j: int|
                0 <= j < self.contour@.len() ==> spec_dist_sq(r.x as int, r.y as int, x as int, y as int)
                    <= #[trigger] spec_dist_sq(
                    self.contour@[j].x as int,
                    self.contour@[j].y as int,
                    x as int,
                    y as int,
                ),
    {
        let ghost c = self.contour@;
        let mut best: usize = 0;
        let mut bd2: u64 = dist_sq(self.contour[0].x, self.contour[0].y, x, y);
        let mut i: usize = 1;
        while i < self.contour.len()
            invariant
                self.wf(),
                c == self.contour@,
                c.len() >= 1,
                -COORD_LIMIT <= x <= COORD_LIMIT,
                -COORD_LIMIT <= y <= COORD_LIMIT,
                1 <= i <= c.len(),
                0 <= best < c.len(),
                bd2 == spec_dist_sq(c[best as int].x as int, c[best as int].y as int, x as int, y as int),
                closest_idx(c, x as int, y as int) == closest_idx_from(
                    c,
                    x as int,
                    y as int,
                    i as int,
                    best as int,
                ),
            decreases c.len() - i,
        {
            let d2: u64 = dist_sq(self.contour[i].x, self.contour[i].y, x, y);
            if d2 < bd2 {
                best = i;
                bd2 = d2;
            }
            i = i + 1;
        }
        proof {
            lemma_closest_idx_from_min(c, x as int, y as int, 1, 0);
        }
        self.contour[best]
    }
}

/// The plan of a perspective rectification: where the four snapped source
/// corners go, and the size of the upright output.
pub struct UnwarpPlan {
    /// The track's corners, each snapped to the nearest contour point.
    pub src: Quad,
    /// The destination corners, in the same order as `src`.
    pub dst: Quad,
    /// Output width: the shorter of the rectangle's first two sides.
    pub width: i64,
    /// Output height: the longer of the rectangle's first two sides.
    pub height: i64,
}

/// Rounded length of the side from corner 0 to corner 1.
pub open spec fn spec_side1(q: Quad) -> int {
    spec_rsqrt(spec_dist_sq(q.p0.x as int, q.p0.y as int, q.p1.x as int, q.p1.y as int))
}

/// Rounded length of the side from corner 1 to corner 2.
pub open spec fn spec_side2(q: Quad) -> int {
    spec_rsqrt(spec_dist_sq(q.p1.x as int, q.p1.y as int, q.p2.x as int, q.p2.y as int))
}

pub open spec fn spec_unwarp_width(q: Quad) -> int {
    if spec_side1(q) <= spec_side2(q) {
        spec_side1(q)
    } else {
        spec_side2(q)
    }
}

pub open spec fn spec_unwarp_height(q: Quad) -> int {
    if spec_side1(q) <= spec_side2(q) {
        spec_side2(q)
    } else {
        spec_side1(q)
    }
}

/// The destination corners: the shorter physical side becomes the top edge.
/// When the first side is the shorter one the corners map in place; when it
/// is the longer one the destination ordering is rotated by one position.
pub open spec fn spec_dst_quad(q: Quad) -> Quad {
    let w = spec_unwarp_width(q);
    let h = spec_unwarp_height(q);
    if w == spec_side1(q) {
        Quad {
            p0: Point { x: 0, y: 0 },
            p1: Point { x: (w - 1) as i64, y: 0 },
            p2: Point { x: (w - 1) as i64, y: (h - 1) as i64 },
            p3: Point { x: 0, y: (h - 1) as i64 },
        }
    } else {
        Quad {
            p0: Point { x: 0, y: (h - 1) as i64 },
            p1: Point { x: 0, y: 0 },
            p2: Point { x: (w - 1) as i64, y: 0 },
            p3: Point { x: (w - 1) as i64, y: (h - 1) as i64 },
        }
    }
}

/// The snapped source corners of the track.
pub open spec fn spec_snapped(card: Card) -> Quad {
    let c = card.contour@;
    Quad {
        p0: c[closest_idx(c, card.rect.p0.x as int, card.rect.p0.y as int)],
        p1: c[closest_idx(c, card.rect.p1.x as int, card.rect.p1.y as int)],
        p2: c[closest_idx(c, card.rect.p2.x as int, card.rect.p2.y as int)],
        p3: c[closest_idx(c, card.rect.p3.x as int, card.rect.p3.y as int)],
    }
}

/// The full rectification plan of a track, or nothing when the geometry is
/// degenerate: an empty contour leaves nothing to snap to, and a zero
/// shorter side leaves no output area.
pub open spec fn spec_unwarp_plan(card: Card) -> Option<UnwarpPlan> {
    if card.contour@.len() == 0 {
        None
    } else if spec_unwarp_width(card.rect) == 0 {
        None
    } else {
        Some(
            UnwarpPlan {
                src: spec_snapped(card),
                dst: spec_dst_quad(card.rect),
                width: spec_unwarp_width(card.rect) as i64,
                height: spec_unwarp_height(card.rect) as i64,
            },
        )
    }
}

impl Card {
    /// Compute the rectification plan for this track: snap each fitted
    /// corner to the nearest contour point and map the snapped corners to an
    /// upright rectangle with the shorter side on top.
    pub fn unwarp_plan(&self) -> (r: Option<UnwarpPlan>)
        requires
            self.wf(),
        ensures
            r == spec_unwarp_plan(*self),
            (r matches Some(p) ==> 1 <= p.width <= p.height && quad_in_range(p.src)),
    {
        if self.contour.len() == 0 {
            return None;
        }
        let c0 = self.get_closest_contour_point(self.rect.p0.x, self.rect.p0.y);
        let c1 = self.get_closest_contour_point(self.rect.p1.x, self.rect.p1.y);
        let c2 = self.get_closest_contour_point(self.rect.p2.x, self.rect.p2.y);
        let c3 = self.get_closest_contour_point(self.rect.p3.x, self.rect.p3.y);
        let d1: u64 = dist_sq(self.rect.p0.x, self.rect.p0.y, self.rect.p1.x, self.rect.p1.y);
        let d2: u64 = dist_sq(self.rect.p1.x, self.rect.p1.y, self.rect.p2.x, self.rect.p2.y);
        let side1: u64 = rounded_sqrt(d1);
        let side2: u64 = rounded_sqrt(d2);
        proof {
            assert(is_rounded_sqrt(d1 as int, spec_rsqrt(d1 as int)));
            assert(is_rounded_sqrt(d2 as int, spec_rsqrt(d2 as int)));
            lemma_rounded_sqrt_unique(d1 as int, side1 as int, spec_rsqrt(d1 as int));
            lemma_rounded_sqrt_unique(d2 as int, side2 as int, spec_rsqrt(d2 as int));
        }
        let width: u64 = if side1 <= side2 {
            side1
        } else {
            side2
        };
        let height: u64 = if side1 <= side2 {
            side2
        } else {
            side1
        };
        if width == 0 {
            return None;
        }
        let w: i64 = width as i64;
        let h: i64 = height as i64;
        let dst: Quad = if side1 <= side2 {
            Quad {
                p0: Point { x: 0, y: 0 },
                p1: Point { x: w - 1, y: 0 },
                p2: Point { x: w - 1, y: h - 1 },
                p3: Point { x: 0, y: h - 1 },
            }
        } else {
            Quad {
                p0: Point { x: 0, y: h - 1 },
                p1: Point { x: 0, y: 0 },
                p2: Point { x: w - 1, y: 0 },
                p3: Point { x: w - 1, y: h - 1 },
            }
        };
        Some(UnwarpPlan { src: Quad { p0: c0, p1: c1, p2: c2, p3: c3 }, dst, width: w, height: h })
    }
}

/// Rectification is deterministic: two tracks with the same corners and the
/// same contour get the same plan, in particular the same output size and
/// the same orientation.
pub proof fn lemma_unwarp_plan_deterministic(a: Card, b: Card)
    requires
        a.rect == b.rect,
        a.contour@ == b.contour@,
    ensures
        spec_unwarp_plan(a) == spec_unwarp_plan(b),
{
}

/// A produced plan is portrait: the output is at least as tall as wide, and
/// the shorter original side spans the top edge of the destination.
pub proof fn lemma_unwarp_plan_portrait(card: Card)
    requires
        card.wf(),
        (spec_unwarp_plan(card) matches Some(p)),
    ensures
        (spec_unwarp_plan(card) matches Some(p) ==> {
            &&& 1 <= p.width <= p.height
            &&& p.width == spec_unwarp_width(card.rect)
            &&& p.height == spec_unwarp_height(card.rect)
            &&& p.dst == spec_dst_quad(card.rect)
        }),
{
    let q = card.rect;
    let d1 = spec_dist_sq(q.p0.x as int, q.p0.y as int, q.p1.x as int, q.p1.y as int);
    let d2 = spec_dist_sq(q.p1.x as int, q.p1.y as int, q.p2.x as int, q.p2.y as int);
    lemma_dist_sq_bound(q.p0.x as int, q.p0.y as int, q.p1.x as int, q.p1.y as int);
    lemma_dist_sq_bound(q.p1.x as int, q.p1.y as int, q.p2.x as int, q.p2.y as int);
    lemma_rsqrt_props(d1);
    lemma_rsqrt_props(d2);
}

} // verus!
