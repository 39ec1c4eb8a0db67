use gathering::card::frame_step;
use gathering::card::Card;
use gathering::detect::{accept_contour, find_card, get_card, Detection};
use gathering::geometry::{dist_sq, polygon_area2, rounded_sqrt, Point, Quad};

fn pt(x: i64, y: i64) -> Point {
    Point { x, y }
}

fn rect_contour(x: i64, y: i64, w: i64, h: i64) -> Vec<Point> {
    vec![pt(x, y), pt(x + w - 1, y), pt(x + w - 1, y + h - 1), pt(x, y + h - 1)]
}

fn rect_quad(x: i64, y: i64, w: i64, h: i64) -> Quad {
    Quad {
        p0: pt(x, y),
        p1: pt(x + w - 1, y),
        p2: pt(x + w - 1, y + h - 1),
        p3: pt(x, y + h - 1),
    }
}

#[test]
fn dist_sq_and_rounded_sqrt_values() {
    assert_eq!(dist_sq(0, 0, 3, 4), 25);
    assert_eq!(dist_sq(3, 4, 0, 0), 25);
    assert_eq!(rounded_sqrt(0), 0);
    assert_eq!(rounded_sqrt(1), 1);
    assert_eq!(rounded_sqrt(2), 1);
    assert_eq!(rounded_sqrt(3), 2);
    assert_eq!(rounded_sqrt(25), 5);
    assert_eq!(rounded_sqrt(30), 5);
    assert_eq!(rounded_sqrt(31), 6);
}

#[test]
fn polygon_area2_of_rectangle() {
    let c = vec![pt(0, 0), pt(45, 0), pt(45, 64), pt(0, 64)];
    assert_eq!(polygon_area2(&c), 2 * 45 * 64);
}

#[test]
fn contour_filter_accepts_card_shape() {
    // a quadrilateral of aspect 65/46 (about 1.41) filling about 29 percent
    // of a 100 x 100 frame
    let c = vec![pt(0, 0), pt(45, 0), pt(45, 64), pt(0, 64)];
    assert!(accept_contour(&c, 4, 100, 100));
}

#[test]
fn contour_filter_rejects_wrong_vertex_count() {
    let c = vec![pt(0, 0), pt(45, 0), pt(45, 64), pt(0, 64)];
    assert!(!accept_contour(&c, 5, 100, 100));
}

#[test]
fn contour_filter_rejects_area_out_of_band() {
    // far below a fifth of the frame area
    let small = vec![pt(0, 0), pt(9, 0), pt(9, 13), pt(0, 13)];
    assert!(!accept_contour(&small, 4, 100, 100));
    // more than half the frame area
    let big = vec![pt(0, 0), pt(79, 0), pt(79, 99), pt(0, 99)];
    assert!(!accept_contour(&big, 4, 100, 100));
}

#[test]
fn contour_filter_rejects_square_aspect() {
    // right area band on a 120 x 120 frame, but aspect 1.0
    let c = vec![pt(0, 0), pt(59, 0), pt(59, 59), pt(0, 59)];
    assert!(!accept_contour(&c, 4, 120, 120));
}

#[test]
fn dedup_keeps_only_larger_of_overlapping_pair() {
    // the small candidate sits at the centre of the large one
    let small = Detection {
        contour: rect_contour(20, 29, 11, 15),
        approx_vertices: 4,
        rect: rect_quad(20, 29, 11, 15),
    };
    let large = Detection {
        contour: rect_contour(0, 0, 51, 71),
        approx_vertices: 4,
        rect: rect_quad(0, 0, 51, 71),
    };
    let r = find_card(vec![small, large], 3).expect("one candidate must survive");
    assert_eq!((r.x, r.y), (25, 35), "the larger candidate survives");
    let small2 = Detection {
        contour: rect_contour(20, 29, 11, 15),
        approx_vertices: 4,
        rect: rect_quad(20, 29, 11, 15),
    };
    let large2 = Detection {
        contour: rect_contour(0, 0, 51, 71),
        approx_vertices: 4,
        rect: rect_quad(0, 0, 51, 71),
    };
    let r2 = find_card(vec![large2, small2], 3).expect("one candidate must survive");
    assert_eq!((r2.x, r2.y), (25, 35), "order of extraction does not matter");
}

#[test]
fn find_card_of_nothing_is_none() {
    assert!(find_card(vec![], 0).is_none());
}

#[test]
fn frame_without_acceptable_contour_only_prunes() {
    // a frame whose only contour is far too small: no candidate, and the
    // tracker is left alone except for pruning
    let bad = Detection {
        contour: rect_contour(0, 0, 10, 14),
        approx_vertices: 4,
        rect: rect_quad(0, 0, 10, 14),
    };
    let detection = get_card(vec![bad], 1000, 1000, 50);
    assert!(detection.is_none());
    let mut track = Card::new(rect_quad(0, 0, 46, 65), rect_contour(0, 0, 46, 65), 0);
    track.mark_processed();
    let identify = frame_step(&mut track, detection, 500);
    assert!(track.alive);
    assert!(track.processed);
    assert!(!identify);
    let identify2 = frame_step(&mut track, None, 1500);
    assert!(!track.alive, "pruning still applies");
    assert!(!identify2);
}

#[test]
fn synthetic_frame_yields_single_tracked_card() {
    // a single white quadrilateral of aspect about 1.4 covering about 29
    // percent of a 100 x 100 frame becomes the sole tracked card
    let d = Detection {
        contour: rect_contour(10, 10, 46, 65),
        approx_vertices: 4,
        rect: rect_quad(10, 10, 46, 65),
    };
    let detection = get_card(vec![d], 100, 100, 42);
    let c = detection.as_ref().expect("exactly one candidate expected");
    assert_eq!((c.x, c.y), (32, 42));
    let mut track = Card::default();
    let identify = frame_step(&mut track, detection, 42);
    assert!(track.alive);
    assert!(!track.processed);
    assert!(identify, "the new track asks for identification");
    assert_eq!(track.last_seen, 42);
    assert_eq!((track.x, track.y), (32, 42));
}
