use gathering::card::{frame_step, kill_card, Card, STALE_AFTER_MS};
use gathering::geometry::{Point, Quad};

fn pt(x: i64, y: i64) -> Point {
    Point { x, y }
}

fn rect_at(x: i64, y: i64, w: i64, h: i64) -> Quad {
    Quad { p0: pt(x, y), p1: pt(x + w, y), p2: pt(x + w, y + h), p3: pt(x, y + h) }
}

fn card_rect() -> Quad {
    rect_at(0, 0, 45, 64)
}

#[test]
fn new_card_is_alive_and_unprocessed() {
    let c = Card::new(card_rect(), vec![pt(0, 0), pt(45, 0), pt(45, 64), pt(0, 64)], 7);
    assert!(c.alive);
    assert!(!c.processed);
    assert_eq!(c.last_seen, 7);
    assert_eq!((c.x, c.y), (22, 32));
    assert_eq!(c.area2, 2 * 45 * 64);
}

#[test]
fn default_card_is_empty_slot() {
    let c = Card::default();
    assert!(!c.alive);
    assert!(!c.processed);
    assert_eq!(c.last_seen, 0);
    assert_eq!(c.area2, 0);
}

#[test]
fn update_within_radius_merges_and_keeps_processed() {
    let mut track = Card::new(card_rect(), vec![pt(0, 0), pt(45, 0)], 0);
    track.mark_processed();
    assert!(track.processed);
    // ten pixels away: well inside the equivalent-circle radius
    let cand = Card::new(rect_at(10, 0, 45, 64), vec![pt(10, 0)], 5);
    let (cx, cy) = (cand.x, cand.y);
    track.update(cand);
    assert!(track.alive);
    assert!(track.processed, "merge must keep the processed flag");
    assert_eq!(track.last_seen, 5);
    assert_eq!((track.x, track.y), (cx, cy));
}

#[test]
fn update_outside_radius_replaces_and_resets_processed() {
    let mut track = Card::new(card_rect(), vec![pt(0, 0)], 0);
    track.mark_processed();
    // forty pixels away: outside the radius, a different physical card
    let cand = Card::new(rect_at(40, 0, 45, 64), vec![pt(40, 0)], 5);
    track.update(cand);
    assert!(track.alive, "replacement leaves an alive track");
    assert!(!track.processed, "replacement must reset the processed flag");
    assert_eq!(track.last_seen, 5);
}

#[test]
fn update_on_dead_track_replaces() {
    let mut track = Card::new(card_rect(), vec![pt(0, 0)], 0);
    track.mark_processed();
    kill_card(&mut track);
    // spatially identical, but the track is dead: a fresh identification
    let cand = Card::new(card_rect(), vec![pt(0, 0)], 3);
    track.update(cand);
    assert!(track.alive);
    assert!(!track.processed);
}

#[test]
fn prune_kills_only_stale_tracks() {
    let mut track = Card::new(card_rect(), vec![pt(0, 0)], 1000);
    track.prune(1000 + STALE_AFTER_MS);
    assert!(track.alive, "exactly the staleness bound is still fresh");
    track.prune(1000 + STALE_AFTER_MS + 1);
    assert!(!track.alive, "past the staleness bound the track dies");
}

#[test]
fn prune_leaves_young_track_untouched() {
    let mut track = Card::new(card_rect(), vec![pt(0, 0)], 1000);
    track.mark_processed();
    track.prune(1500);
    assert!(track.alive);
    assert!(track.processed);
    assert_eq!(track.last_seen, 1000);
}

#[test]
fn kill_card_forces_dead() {
    let mut track = Card::new(card_rect(), vec![pt(0, 0)], 0);
    kill_card(&mut track);
    assert!(!track.alive);
}

#[test]
fn frame_step_without_detection_only_prunes() {
    let mut track = Card::new(card_rect(), vec![pt(0, 0)], 0);
    let identify = frame_step(&mut track, None, 500);
    assert!(track.alive);
    assert!(identify, "a fresh unprocessed track asks for identification");
    let identify2 = frame_step(&mut track, None, 2000);
    assert!(!track.alive, "gone stale after more than a second");
    assert!(!identify2);
}

#[test]
fn frame_step_marks_identification_once() {
    let mut track = Card::default();
    let cand = Card::new(card_rect(), vec![pt(0, 0), pt(45, 0)], 10);
    let identify = frame_step(&mut track, Some(cand), 10);
    assert!(identify);
    track.mark_processed();
    let cand2 = Card::new(card_rect(), vec![pt(0, 0), pt(45, 0)], 20);
    let identify2 = frame_step(&mut track, Some(cand2), 20);
    assert!(!identify2, "a merged track stays processed and is not retried");
}
