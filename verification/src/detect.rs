//! Contour filtering and candidate extraction.
//!
//! A frame's contours arrive from the contour extractor together with two
//! fitted values per contour: the vertex count of its simplified polygon and
//! the corners of its minimum-area rotated rectangle.  The filter keeps the
//! contours plausibly shaped like a card (area band as a fraction of the
//! frame, exactly four simplified vertices, aspect ratio band); the extractor
//! turns the survivors into candidates and discards every candidate that a
//! larger overlapping candidate subsumes.

use vstd::prelude::*;

use crate::card::Card;
use crate::geometry::{
    centroid_x, centroid_y, contour_in_range, dist_sq, polygon_area2, quad_area2, quad_in_range,
    spec_area2, spec_dist_sq, within_radius, within_radius_check, Point, Quad, COORD_LIMIT,
};

verus! {

/// One contour as handed in by the contour extractor, with the two fitted
/// values the filter reads: the vertex count of its simplified polygon and
/// the corners of its minimum-area rotated rectangle.
pub struct Detection {
    /// The full contour point sequence.
    pub contour: Vec<Point>,
    /// Number of vertices of the polygon simplification of the contour at
    /// tolerance two percent of its perimeter.
    pub approx_vertices: usize,
    /// Corners of the minimum-area rotated rectangle fitted to the contour,
    /// rounded to integers.
    pub rect: Quad,
}

impl Detection {
    pub open spec fn wf(self) -> bool {
        contour_in_range(self.contour@) && quad_in_range(self.rect)
    }
}

/// Smallest x coordinate among the first `k` points of `c`.
pub open spec fn lo_x(c: Seq<Point>, k: int) -> int
    decreases k,
{
    if k <= 1 {
        c[0].x as int
    } else if (c[k - 1].x as int) < lo_x(c, k - 1) {
        c[k - 1].x as int
    } else {
        lo_x(c, k - 1)
    }
}

/// Largest x coordinate among the first `k` points of `c`.
pub open spec fn hi_x(c: Seq<Point>, k: int) -> int
    decreases k,
{
    if k <= 1 {
        c[0].x as int
    } else if (c[k - 1].x as int) > hi_x(c, k - 1) {
        c[k - 1].x as int
    } else {
        hi_x(c, k - 1)
    }
}

/// Smallest y coordinate among the first `k` points of `c`.
pub open spec fn lo_y(c: Seq<Point>, k: int) -> int
    decreases k,
{
    if k <= 1 {
        c[0].y as int
    } else if (c[k - 1].y as int) < lo_y(c, k - 1) {
        c[k - 1].y as int
    } else {
        lo_y(c, k - 1)
    }
}

/// Largest y coordinate among the first `k` points of `c`.
pub open spec fn hi_y(c: Seq<Point>, k: int) -> int
    decreases k,
{
    if k <= 1 {
        c[0].y as int
    } else if (c[k - 1].y as int) > hi_y(c, k - 1) {
        c[k - 1].y as int
    } else {
        hi_y(c, k - 1)
    }
}

/// Width of the upright bounding box of `c`, counted in pixels as the
/// bounding-rectangle fit does: both end columns are included.
pub open spec fn bbox_w(c: Seq<Point>) -> int {
    hi_x(c, c.len() as int) - lo_x(c, c.len() as int) + 1
}

/// Height of the upright bounding box of `c`, both end rows included.
pub open spec fn bbox_h(c: Seq<Point>) -> int {
    hi_y(c, c.len() as int) - lo_y(c, c.len() as int) + 1
}

/// Corner coordinates of the upright bounding box of the points of `c`.
fn bounding_box(c: &Vec<Point>) -> (r: (i64, i64, i64, i64))
    requires
        contour_in_range(c@),
        c@.len() >= 1,
    ensures
        r.0 == lo_x(c@, c@.len() as int),
        r.1 == hi_x(c@, c@.len() as int),
        r.2 == lo_y(c@, c@.len() as int),
        r.3 == hi_y(c@, c@.len() as int),
        -COORD_LIMIT <= r.0 <= r.1 <= COORD_LIMIT,
        -COORD_LIMIT <= r.2 <= r.3 <= COORD_LIMIT,
{
    let mut lox: i64 = c[0].x;
    let mut hix: i64 = c[0].x;
    let mut loy: i64 = c[0].y;
    let mut hiy: i64 = c[0].y;
    let mut i: usize = 1;
    while i < c.len()
        invariant
            contour_in_range(c@),
            1 <= i <= c@.len(),
            lox == lo_x(c@, i as int),
            hix == hi_x(c@, i as int),
            loy == lo_y(c@, i as int),
            hiy == hi_y(c@, i as int),
            -COORD_LIMIT <= lox <= hix <= COORD_LIMIT,
            -COORD_LIMIT <= loy <= hiy <= COORD_LIMIT,
        decreases c@.len() - i,
    {
        if c[i].x < lox {
            lox = c[i].x;
        }
        if c[i].x > hix {
            hix = c[i].x;
        }
        if c[i].y < loy {
            loy = c[i].y;
        }
        if c[i].y > hiy {
            hiy = c[i].y;
        }
        i = i + 1;
    }
    (lox, hix, loy, hiy)
}

/// Whether the polygon area of `c` falls strictly inside the accepted band:
/// above a fifth and below half of the frame area.  Areas are doubled on
/// both sides, so the comparison is exact.
pub open spec fn area_band_ok(c: Seq<Point>, fw: int, fh: int) -> bool {
    &&& 5 * spec_area2(c) > 2 * (fw * fh)
    &&& spec_area2(c) < fw * fh
}

/// Whether the aspect ratio of the upright bounding box of `c` lies in the
/// band `[1.1, 1.7)` that fits a card seen at moderate rotation: with `mx`
/// the longer and `mn` the shorter box side, `1.1 <= mx / mn < 1.7` exactly
/// when `11 * mn <= 10 * mx < 17 * mn`.
pub open spec fn aspect_band_ok(c: Seq<Point>) -> bool {
    let w = bbox_w(c);
    let h = bbox_h(c);
    let mx = if w >= h {
        w
    } else {
        h
    };
    let mn = if w >= h {
        h
    } else {
        w
    };
    11 * mn <= 10 * mx && 10 * mx < 17 * mn
}

/// The contour filter: a contour is kept when its area falls in the accepted
/// band of the frame area, its simplified polygon has exactly four vertices,
/// and its bounding-box aspect ratio fits a card.
pub open spec fn spec_accept_contour(c: Seq<Point>, approx_vertices: int, fw: int, fh: int) -> bool {
    &&& area_band_ok(c, fw, fh)
    &&& approx_vertices == 4
    &&& c.len() >= 1 && aspect_band_ok(c)
}

pub open spec fn spec_accept_detection(d: Detection, fw: int, fh: int) -> bool {
    spec_accept_contour(d.contour@, d.approx_vertices as int, fw, fh)
}

/// Decide whether one contour passes the filter of `spec_accept_contour`.
pub fn accept_contour(contour: &Vec<Point>, approx_vertices: usize, frame_w: i64, frame_h: i64) -> (r:
    bool)
    requires
        contour_in_range(contour@),
        1 <= frame_w <= COORD_LIMIT,
        1 <= frame_h <= COORD_LIMIT,
    ensures
        r == spec_accept_contour(contour@, approx_vertices as int, frame_w as int, frame_h as int),
{
    let area2: u64 = polygon_area2(contour);
    proof {
        assert(1 <= frame_w as int * frame_h as int <= 1099511627776) by (nonlinear_arith)
            requires
                1 <= frame_w as int <= 1048576,
                1 <= frame_h as int <= 1048576,
        ;
    }
    let fa: u64 = (frame_w * frame_h) as u64;
    if !(5 * area2 > 2 * fa && area2 < fa) {
        return false;
    }
    if approx_vertices != 4 {
        return false;
    }
    proof {
        assert(contour@.len() >= 1);
    }
    let (lox, hix, loy, hiy) = bounding_box(contour);
    let w: i64 = hix - lox + 1;
    let h: i64 = hiy - loy + 1;
    let mx: i64 = if w >= h {
        w
    } else {
        h
    };
    let mn: i64 = if w >= h {
        h
    } else {
        w
    };
    11 * mn <= 10 * mx && 10 * mx < 17 * mn
}

/// The candidate that a kept contour becomes: a fresh, unprocessed track
/// seen at `now_ms`, with the fitted corners' centroid and doubled area.
pub open spec fn spec_new_card(rect: Quad, contour: Vec<Point>, now_ms: u64) -> Card {
    Card {
        rect,
        last_seen: now_ms,
        alive: true,
        processed: false,
        x: centroid_x(rect) as i64,
        y: centroid_y(rect) as i64,
        area2: quad_area2(rect) as u64,
        contour,
    }
}

pub open spec fn spec_build(dets: Seq<Detection>, now_ms: u64) -> Seq<Card> {
    dets.map_values(|d: Detection| spec_new_card(d.rect, d.contour, now_ms))
}

/// Whether the candidate `o` subsumes the candidate `c`: their centroids lie
/// within `c`'s own equivalent-circle radius of each other and `o` covers
/// the strictly larger area.
pub open spec fn spec_dominates(c: Card, o: Card) -> bool {
    &&& within_radius(
        spec_dist_sq(c.x as int, c.y as int, o.x as int, o.y as int),
        c.area2 as int,
    )
    &&& o.area2 > c.area2
}

/// Whether some candidate other than the one at position `r` dominates the
/// one at position `r`.
pub open spec fn dominated_at(s: Seq<Card>, r: int) -> bool {
    exists|j: int| 0 <= j < s.len() && j != r && #[trigger] spec_dominates(s[r], s[j])
}

/// The deduplication scan from cursor `r` on: a dominated candidate is
/// dropped and the cursor stays, an undominated one is kept and the cursor
/// advances.
pub open spec fn spec_dedup_from(s: Seq<Card>, r: int) -> Seq<Card>
    decreases s.len() - r,
{
    if r < 0 || r >= s.len() {
        s
    } else if dominated_at(s, r) {
        spec_dedup_from(s.remove(r), r)
    } else {
        spec_dedup_from(s, r + 1)
    }
}

/// The candidates that survive deduplication, in order.
pub open spec fn spec_dedup(s: Seq<Card>) -> Seq<Card> {
    spec_dedup_from(s, 0)
}

/// Deduplication never empties a nonempty candidate list: dropping a
/// candidate takes a dominating witness, so at least one candidate stays.
pub proof fn lemma_dedup_nonempty(s: Seq<Card>, r: int)
    requires
        s.len() >= 1,
        0 <= r,
    ensures
        spec_dedup_from(s, r).len() >= 1,
    decreases s.len() - r,
{
    if r >= s.len() {
    } else if dominated_at(s, r) {
        let j = choose|j: int| 0 <= j < s.len() && j != r && #[trigger] spec_dominates(s[r], s[j]);
        assert(s.len() >= 2);
        lemma_dedup_nonempty(s.remove(r), r);
    } else {
        lemma_dedup_nonempty(s, r + 1);
    }
}

/// Turn the kept contours into candidates and deduplicate them; the first
/// surviving candidate, if any, is the frame's detection.
pub fn find_card(candidates: Vec<Detection>, now_ms: u64) -> (r: Option<Card>)
    requires
        forall|i: int| 0 <= i < candidates@.len() ==> (#[trigger] candidates@[i]).wf(),
    ensures
        ((r is None) <==> candidates@.len() == 0),
        candidates@.len() > 0 ==> r == Some(spec_dedup(spec_build(candidates@, now_ms))[0]),
        (r matches Some(c) ==> c.wf() && c.alive && !c.processed && c.last_seen == now_ms),
{
    let ghost orig = candidates@;
    let mut rest = candidates;
    let mut cards: Vec<Card> = Vec::new();
    while rest.len() > 0
        invariant
            forall|i: int| 0 <= i < rest@.len() ==> (#[trigger] rest@[i]).wf(),
            cards@.len() + rest@.len() == orig.len(),
            rest@ =~= orig.skip(cards@.len() as int),
            cards@ =~= spec_build(orig, now_ms).take(cards@.len() as int),
            forall|i: int|
                0 <= i < cards@.len() ==> (#[trigger] cards@[i]).wf() && cards@[i].alive
                    && !cards@[i].processed && cards@[i].last_seen == now_ms,
        decreases rest@.len(),
    {
        let ghost k = cards@.len() as int;
        let d = rest.remove(0);
        proof {
            assert(d == orig[k]);
        }
        let card = Card::new(d.rect, d.contour, now_ms);
        proof {
            assert(card == spec_new_card(orig[k].rect, orig[k].contour, now_ms));
            assert(spec_build(orig, now_ms)[k] == spec_new_card(
                orig[k].rect,
                orig[k].contour,
                now_ms,
            ));
        }
        cards.push(card);
    }
    proof {
        assert(cards@ =~= spec_build(orig, now_ms));
    }
    let ghost built = cards@;
    let mut r: usize = 0;
    while r < cards.len()
        invariant
            r <= cards@.len(),
            forall|i: int|
                0 <= i < cards@.len() ==> (#[trigger] cards@[i]).wf() && cards@[i].alive
                    && !cards@[i].processed && cards@[i].last_seen == now_ms,
            spec_dedup_from(built, 0) == spec_dedup_from(cards@, r as int),
        decreases cards@.len() - r,
    {
        let cx: i64 = cards[r].x;
        let cy: i64 = cards[r].y;
        let ca: u64 = cards[r].area2;
        let mut found: bool = false;
        let mut i: usize = 0;
        while i < cards.len()
            invariant
                r < cards@.len(),
                i <= cards@.len(),
                forall|k: int| 0 <= k < cards@.len() ==> (#[trigger] cards@[k]).wf(),
                cx == cards@[r as int].x,
                cy == cards@[r as int].y,
                ca == cards@[r as int].area2,
                found == exists|j: int|
                    0 <= j < i && j != r as int && #[trigger] spec_dominates(
                        cards@[r as int],
                        cards@[j],
                    ),
            decreases cards@.len() - i,
        {
            if i != r {
                let d2: u64 = dist_sq(cx, cy, cards[i].x, cards[i].y);
                if within_radius_check(d2, ca) && cards[i].area2 > ca {
                    proof {
                        assert(spec_dominates(cards@[r as int], cards@[i as int]));
                    }
                    found = true;
                }
            }
            i = i + 1;
        }
        proof {
            assert(found == dominated_at(cards@, r as int));
        }
        if found {
            cards.remove(r);
        } else {
            r = r + 1;
        }
    }
    proof {
        if orig.len() > 0 {
            lemma_dedup_nonempty(built, 0);
        }
    }
    if cards.is_empty() {
        None
    } else {
        let first = cards.remove(0);
        Some(first)
    }
}

/// The accepted contours of one frame, in order.
pub open spec fn spec_accepted(dets: Seq<Detection>, fw: int, fh: int) -> Seq<Detection> {
    dets.filter(|d: Detection| spec_accept_detection(d, fw, fh))
}

/// The frame's detection: the first candidate surviving deduplication of the
/// accepted contours, or nothing when no contour passes the filter.
pub open spec fn spec_get_card(dets: Seq<Detection>, fw: int, fh: int, now_ms: u64) -> Option<
    Card,
> {
    let acc = spec_accepted(dets, fw, fh);
    if acc.len() == 0 {
        None
    } else {
        Some(spec_dedup(spec_build(acc, now_ms))[0])
    }
}

/// Detect the card in one frame's contours: filter the contours, turn the
/// survivors into candidates, deduplicate, and hand back the first survivor.
pub fn get_card(detections: Vec<Detection>, frame_w: i64, frame_h: i64, now_ms: u64) -> (r: Option<
    Card,
>)
    requires
        forall|i: int| 0 <= i < detections@.len() ==> (#[trigger] detections@[i]).wf(),
        1 <= frame_w <= COORD_LIMIT,
        1 <= frame_h <= COORD_LIMIT,
    ensures
        r == spec_get_card(detections@, frame_w as int, frame_h as int, now_ms),
        (r matches Some(c) ==> c.wf() && c.alive && !c.processed && c.last_seen == now_ms),
{
    let ghost orig = detections@;
    let ghost pred = |d: Detection| spec_accept_detection(d, frame_w as int, frame_h as int);
    let mut rest = detections;
    let mut accepted: Vec<Detection> = Vec::new();
    let ghost mut seen: Seq<Detection> = Seq::empty();
    proof {
        reveal(Seq::filter);
        assert(seen.filter(pred) =~= Seq::<Detection>::empty());
    }
    while rest.len() > 0
        invariant
            forall|i: int| 0 <= i < rest@.len() ==> (#[trigger] rest@[i]).wf(),
            forall|i: int| 0 <= i < accepted@.len() ==> (#[trigger] accepted@[i]).wf(),
            orig =~= seen + rest@,
            accepted@ == seen.filter(pred),
            pred == (|d: Detection| spec_accept_detection(d, frame_w as int, frame_h as int)),
            1 <= frame_w <= COORD_LIMIT,
            1 <= frame_h <= COORD_LIMIT,
        decreases rest@.len(),
    {
        let d = rest.remove(0);
        let keep = accept_contour(&d.contour, d.approx_vertices, frame_w, frame_h);
        proof {
            reveal(Seq::filter);
            let pushed = seen.push(d);
            assert(pushed.drop_last() =~= seen);
            assert(pushed.last() == d);
            assert(pushed.filter(pred) == if pred(d) {
                seen.filter(pred).push(d)
            } else {
                seen.filter(pred)
            });
            seen = pushed;
        }
        if keep {
            accepted.push(d);
        }
    }
    proof {
        assert(orig =~= seen);
        assert(accepted@ == spec_accepted(orig, frame_w as int, frame_h as int));
    }
    find_card(accepted, now_ms)
}

/// A frame in which no contour lies in the accepted area, shape and aspect
/// band produces no candidate at all, so its tracker step leaves the track
/// unchanged except for staleness pruning.
pub proof fn lemma_no_accepted_contour_only_prunes(
    dets: Seq<Detection>,
    fw: int,
    fh: int,
    now_ms: u64,
    track: Card,
)
    requires
        forall|i: int|
            0 <= i < dets.len() ==> !spec_accept_contour(
                (#[trigger] dets[i]).contour@,
                dets[i].approx_vertices as int,
                fw,
                fh,
            ),
        track.last_seen <= now_ms,
    ensures
        (spec_get_card(dets, fw, fh, now_ms) is None),
        Card::spec_prune(track, now_ms).processed == track.processed,
        Card::spec_prune(track, now_ms).rect == track.rect,
        Card::spec_prune(track, now_ms).contour == track.contour,
        Card::spec_prune(track, now_ms).last_seen == track.last_seen,
        now_ms - track.last_seen <= crate::card::STALE_AFTER_MS ==> Card::spec_prune(
            track,
            now_ms,
        ) == track,
{
    let pred = |d: Detection| spec_accept_detection(d, fw, fh);
    dets.lemma_all_neg_filter_empty(pred);
}

/// Of two overlapping candidates whose centroids lie within the first's own
/// radius, only the one with the larger area survives deduplication,
/// whichever order the two were extracted in.
pub proof fn lemma_dedup_pair_keeps_larger(c1: Card, c2: Card)
    requires
        spec_dominates(c1, c2),
    ensures
        spec_dedup(seq![c1, c2]) =~= seq![c2],
        spec_dedup(seq![c2, c1]) =~= seq![c2],
{
    let s12 = seq![c1, c2];
    let s2 = seq![c2];
    assert(spec_dominates(s12[0], s12[1]));
    assert(dominated_at(s12, 0));
    assert(spec_dedup_from(s12, 0) == spec_dedup_from(s12.remove(0), 0));
    assert(s12.remove(0) =~= s2);
    assert(!dominated_at(s2, 0));
    assert(spec_dedup_from(s2, 0) == spec_dedup_from(s2, 1));
    assert(spec_dedup_from(s2, 1) == s2);
    assert(spec_dedup(s12) =~= s2);

    let s21 = seq![c2, c1];
    assert(!dominated_at(s21, 0)) by {
        if dominated_at(s21, 0) {
            let j = choose|j: int|
                0 <= j < s21.len() && j != 0 && #[trigger] spec_dominates(s21[0], s21[j]);
            assert(j == 1);
            assert(c1.area2 > c2.area2);
        }
    }
    assert(spec_dedup_from(s21, 0) == spec_dedup_from(s21, 1));
    assert(spec_dominates(s21[1], s21[0]));
    assert(dominated_at(s21, 1));
    assert(spec_dedup_from(s21, 1) == spec_dedup_from(s21.remove(1), 1));
    assert(s21.remove(1) =~= s2);
    assert(spec_dedup_from(s2, 1) == s2);
    assert(spec_dedup(s21) =~= s2);
}

} // verus!
