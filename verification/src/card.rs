//! The tracked card: a single persistent slot holding at most one live card.
//!
//! Each frame either merges a fresh detection into the existing track (same
//! physical card, jittering in place), replaces the track wholesale (a new
//! card), or lets the track go stale once nothing has matched for a second.
//! Times are plain milliseconds handed in by the caller, so the whole state
//! machine is a function of its inputs.

use vstd::prelude::*;

use crate::geometry::{
    centroid, centroid_x, centroid_y, contour_in_range, dist_sq, quad_area2, quad_area2_exec,
    quad_in_range, spec_dist_sq, within_radius, within_radius_check, Point, Quad, COORD_LIMIT,
    GEOM_BOUND,
};

verus! {

/// Milliseconds without a matching detection after which a track is stale.
pub const STALE_AFTER_MS: u64 = 1000;

/// The single tracked card.  A freshly built value doubles as a per-frame
/// candidate detection: `update` either merges it into or replaces the track.
pub struct Card {
    /// Corners of the fitted rotated rectangle.
    pub rect: Quad,
    /// Time of the most recent successful merge or replacement, in
    /// caller-supplied milliseconds.
    pub last_seen: u64,
    /// Whether the track currently stands for a card believed in view.
    pub alive: bool,
    /// Whether identification has already been attempted for this track.
    pub processed: bool,
    /// Centroid of the corners, truncated toward zero.
    pub x: i64,
    /// Centroid of the corners, truncated toward zero.
    pub y: i64,
    /// Twice the polygon area of the corners; the association gate derives
    /// the equivalent-circle radius from it.
    pub area2: u64,
    /// The originating contour, kept for corner snapping at rectification.
    pub contour: Vec<Point>,
}

impl Card {
    /// Geometric consistency of the stored fields: coordinates are in range
    /// and centroid and area are those of the stored corners.
    pub open spec fn wf(self) -> bool {
        &&& quad_in_range(self.rect)
        &&& contour_in_range(self.contour@)
        &&& -COORD_LIMIT <= self.x <= COORD_LIMIT
        &&& -COORD_LIMIT <= self.y <= COORD_LIMIT
        &&& self.x == centroid_x(self.rect)
        &&& self.y == centroid_y(self.rect)
        &&& self.area2 == quad_area2(self.rect)
        &&& self.area2 <= GEOM_BOUND
    }

    /// Whether the candidate `cand` falls inside the association gate of the
    /// track `track`: the track is alive and the candidate's centroid lies
    /// within the track's equivalent-circle radius.
    pub open spec fn merges(track: Card, cand: Card) -> bool {
        &&& track.alive
        &&& within_radius(
            spec_dist_sq(cand.x as int, cand.y as int, track.x as int, track.y as int),
            track.area2 as int,
        )
    }

    /// The track after a merge: geometry and sighting time from the
    /// candidate, liveness and the processed flag kept.
    pub open spec fn spec_merged(track: Card, cand: Card) -> Card {
        Card { alive: track.alive, processed: track.processed, ..cand }
    }

    /// The track after `update`: merged when the candidate passes the
    /// association gate of the current track, replaced wholesale otherwise.
    pub open spec fn spec_update(track: Card, cand: Card) -> Card {
        if Card::merges(track, cand) {
            Card::spec_merged(track, cand)
        } else {
            cand
        }
    }

    /// The track after staleness pruning at time `now_ms`.
    pub open spec fn spec_prune(track: Card, now_ms: u64) -> Card {
        if track.alive && now_ms - track.last_seen > STALE_AFTER_MS {
            Card { alive: false, ..track }
        } else {
            track
        }
    }

    /// A fresh detection: alive, not yet processed, seen now.
    pub fn new(rect: Quad, contour: Vec<Point>, now_ms: u64) -> (r: Card)
        requires
            quad_in_range(rect),
            contour_in_range(contour@),
        ensures
            r.wf(),
            r.rect == rect,
            r.contour == contour,
            r.last_seen == now_ms,
            r.alive,
            !r.processed,
    {
        let (x, y) = centroid(&rect);
        let area2: u64 = quad_area2_exec(&rect);
        Card { rect, last_seen: now_ms, alive: true, processed: false, x, y, area2, contour }
    }

    /// Fold the fresh detection `new_card` into the track: merge it when its
    /// centroid lies within the current track's radius, replace the track
    /// with it otherwise.
    pub fn update(&mut self, new_card: Card)
        requires
            old(self).wf(),
            new_card.wf(),
        ensures
            final(self).wf(),
            *final(self) == Card::spec_update(*old(self), new_card),
    {
        let d2: u64 = dist_sq(new_card.x, new_card.y, self.x, self.y);
        if self.alive && within_radius_check(d2, self.area2) {
            self.rect = new_card.rect;
            self.last_seen = new_card.last_seen;
            self.x = new_card.x;
            self.y = new_card.y;
            self.area2 = new_card.area2;
            self.contour = new_card.contour;
        } else {
            *self = new_card;
        }
    }

    /// Let the track go stale: a live track that has not been confirmed for
    /// more than `STALE_AFTER_MS` milliseconds stops being alive.  Nothing
    /// else changes; the stale geometry stays until overwritten.
    pub fn prune(&mut self, now_ms: u64)
        requires
            old(self).wf(),
            old(self).last_seen <= now_ms,
        ensures
            final(self).wf(),
            *final(self) == Card::spec_prune(*old(self), now_ms),
    {
        if self.alive && now_ms - self.last_seen > STALE_AFTER_MS {
            self.alive = false;
        }
    }

    /// Record that identification has been attempted for this track, whether
    /// or not it succeeded, so that it is not retried every frame.
    pub fn mark_processed(&mut self)
        ensures
            *final(self) == (Card { processed: true, ..*old(self) }),
            old(self).wf() ==> final(self).wf(),
    {
        self.processed = true;
    }
}

impl Default for Card {
    /// The empty slot before any detection: not alive, nothing processed,
    /// degenerate geometry at the origin.
    fn default() -> (r: Card)
        ensures
            r.wf(),
            !r.alive,
            !r.processed,
            r.last_seen == 0,
            r.x == 0 && r.y == 0 && r.area2 == 0,
            r.contour@.len() == 0,
    {
        let origin = Point { x: 0, y: 0 };
        let rect = Quad { p0: origin, p1: origin, p2: origin, p3: origin };
        let contour: Vec<Point> = Vec::new();
        let (x, y) = centroid(&rect);
        let area2: u64 = quad_area2_exec(&rect);
        proof {
            reveal_with_fuel(crate::geometry::shoelace_from, 6);
            assert(area2 == 0);
        }
        Card { rect, last_seen: 0, alive: false, processed: false, x, y, area2, contour }
    }
}

/// External rejection: force the track dead so the next detection starts a
/// fresh identification regardless of spatial proximity.
pub fn kill_card(card: &mut Card)
    ensures
        *final(card) == (Card { alive: false, ..*old(card) }),
        old(card).wf() ==> final(card).wf(),
{
    card.alive = false;
}

/// One frame's tracker transition: fold in the detection if there is one,
/// then prune for staleness.  Returns whether identification should run now:
/// the track is alive and has not been processed yet.
pub fn frame_step(card: &mut Card, detection: Option<Card>, now_ms: u64) -> (identify: bool)
    requires
        old(card).wf(),
        old(card).last_seen <= now_ms,
        detection matches Some(d) ==> d.wf() && d.last_seen <= now_ms,
    ensures
        final(card).wf(),
        *final(card) == (match detection {
            Some(d) => Card::spec_prune(Card::spec_update(*old(card), d), now_ms),
            None => Card::spec_prune(*old(card), now_ms),
        }),
        identify == (final(card).alive && !final(card).processed),
{
    if let Some(d) = detection {
        card.update(d);
    }
    card.prune(now_ms);
    card.alive && !card.processed
}

/// Merge keeps, replacement resets: folding a fresh candidate into an alive
/// track preserves the processed flag exactly when the candidate's centroid
/// lies within the track's radius; otherwise, or when no track is alive, the
/// track becomes the candidate, alive and unprocessed.
pub proof fn lemma_update_merge_vs_replace(track: Card, cand: Card)
    requires
        cand.alive,
        !cand.processed,
    ensures
        Card::merges(track, cand) ==> Card::spec_update(track, cand).processed
            == track.processed && Card::spec_update(track, cand).alive,
        !Card::merges(track, cand) ==> !Card::spec_update(track, cand).processed
            && Card::spec_update(track, cand).alive,
        !track.alive ==> !Card::spec_update(track, cand).processed,
{
}

/// Pruning kills exactly the tracks whose last sighting is more than
/// `STALE_AFTER_MS` milliseconds in the past, and changes nothing else.
pub proof fn lemma_prune_staleness(track: Card, now_ms: u64)
    requires
        track.last_seen <= now_ms,
    ensures
        track.alive && now_ms - track.last_seen > STALE_AFTER_MS ==> !Card::spec_prune(
            track,
            now_ms,
        ).alive,
        now_ms - track.last_seen <= STALE_AFTER_MS ==> Card::spec_prune(track, now_ms) == track,
        Card::spec_prune(track, now_ms).processed == track.processed,
        Card::spec_prune(track, now_ms).rect == track.rect,
        Card::spec_prune(track, now_ms).last_seen == track.last_seen,
{
}

} // verus!
