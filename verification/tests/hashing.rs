use gathering::card::Card;
use gathering::geometry::{Point, Quad};
use gathering::image_hash::{card_id_of_stem, hamming_distance, HashIndex};

fn pt(x: i64, y: i64) -> Point {
    Point { x, y }
}

#[test]
fn hamming_distance_of_equal_hashes_is_zero() {
    for h in [0u64, 1, 0xdead_beef, u64::MAX] {
        assert_eq!(hamming_distance(h, h), 0);
    }
}

#[test]
fn hamming_distance_is_symmetric() {
    let pairs = [(100u64, 103u64), (0, u64::MAX), (0b1011, 0b0010)];
    for (a, b) in pairs {
        assert_eq!(hamming_distance(a, b), hamming_distance(b, a));
    }
}

#[test]
fn hamming_distance_counts_differing_bits() {
    assert_eq!(hamming_distance(0b1011, 0b0010), 2);
    assert_eq!(hamming_distance(0, u64::MAX), 64);
    assert_eq!(hamming_distance(100, 101), 1);
    assert_eq!(hamming_distance(101, 103), 1);
    assert_eq!(hamming_distance(100, 103), 2);
}

#[test]
fn nearest_neighbour_prefers_smaller_distance() {
    let index = HashIndex::from_entries(vec![
        (100, String::from("cardA")),
        (103, String::from("cardB")),
    ]);
    // distance one to cardA, distance two to cardB
    assert_eq!(index.get_card_id(101), Some(String::from("cardA")));
}

#[test]
fn exact_hash_match_returns_its_entry() {
    let index = HashIndex::from_entries(vec![
        (100, String::from("cardA")),
        (103, String::from("cardB")),
    ]);
    assert_eq!(index.get_card_id(103), Some(String::from("cardB")));
    assert_eq!(index.get_card_id(100), Some(String::from("cardA")));
}

#[test]
fn empty_index_returns_nothing() {
    let index = HashIndex::from_entries(vec![]);
    assert_eq!(index.get_card_id(42), None);
}

#[test]
fn repeated_hash_keeps_last_entry() {
    let index = HashIndex::from_entries(vec![
        (5, String::from("first")),
        (5, String::from("second")),
    ]);
    assert_eq!(index.entries.len(), 1);
    assert_eq!(index.get_card_id(5), Some(String::from("second")));
}

#[test]
fn card_id_of_stem_cuts_at_last_dash() {
    assert_eq!(
        card_id_of_stem("0a1b2c-3d4e-front"),
        Some(String::from("0a1b2c-3d4e"))
    );
    assert_eq!(card_id_of_stem("abc-1"), Some(String::from("abc")));
    assert_eq!(card_id_of_stem("nodash"), None);
    assert_eq!(card_id_of_stem(""), None);
}

#[test]
fn unwarp_plan_is_deterministic_and_portrait() {
    let rect = Quad { p0: pt(0, 0), p1: pt(45, 0), p2: pt(45, 64), p3: pt(0, 64) };
    let contour = vec![pt(0, 0), pt(45, 0), pt(45, 64), pt(0, 64)];
    let card = Card::new(rect, contour.clone(), 0);
    let p1 = card.unwarp_plan().expect("plan expected");
    let card2 = Card::new(rect, contour, 0);
    let p2 = card2.unwarp_plan().expect("plan expected");
    assert_eq!((p1.width, p1.height), (45, 64));
    assert_eq!((p2.width, p2.height), (45, 64), "same inputs, same size");
    assert_eq!(p1.src, p2.src);
    assert_eq!(p1.dst, p2.dst);
    // the first side is the shorter one: corners map in place
    assert_eq!(p1.dst.p0, pt(0, 0));
    assert_eq!(p1.dst.p1, pt(44, 0));
    assert_eq!(p1.dst.p2, pt(44, 63));
    assert_eq!(p1.dst.p3, pt(0, 63));
}

#[test]
fn unwarp_plan_rotates_when_first_side_is_long() {
    let rect = Quad { p0: pt(0, 0), p1: pt(0, 64), p2: pt(45, 64), p3: pt(45, 0) };
    let contour = vec![pt(0, 0), pt(0, 64), pt(45, 64), pt(45, 0)];
    let card = Card::new(rect, contour, 0);
    let p = card.unwarp_plan().expect("plan expected");
    assert_eq!((p.width, p.height), (45, 64));
    // the shorter physical side still spans the top edge
    assert_eq!(p.dst.p0, pt(0, 63));
    assert_eq!(p.dst.p1, pt(0, 0));
    assert_eq!(p.dst.p2, pt(44, 0));
    assert_eq!(p.dst.p3, pt(44, 63));
}

#[test]
fn unwarp_plan_snaps_corners_to_contour() {
    let rect = Quad { p0: pt(1, 1), p1: pt(44, 0), p2: pt(46, 63), p3: pt(0, 65) };
    let contour = vec![pt(0, 0), pt(45, 0), pt(45, 64), pt(0, 64)];
    let card = Card::new(rect, contour, 0);
    let p = card.unwarp_plan().expect("plan expected");
    assert_eq!(p.src.p0, pt(0, 0));
    assert_eq!(p.src.p1, pt(45, 0));
    assert_eq!(p.src.p2, pt(45, 64));
    assert_eq!(p.src.p3, pt(0, 64));
}

#[test]
fn unwarp_plan_fails_on_degenerate_geometry() {
    let rect = Quad { p0: pt(3, 3), p1: pt(3, 3), p2: pt(3, 3), p3: pt(3, 3) };
    let card = Card::new(rect, vec![pt(3, 3)], 0);
    assert!(card.unwarp_plan().is_none(), "zero-size output has no plan");
    let rect2 = Quad { p0: pt(0, 0), p1: pt(45, 0), p2: pt(45, 64), p3: pt(0, 64) };
    let empty = Card::new(rect2, vec![], 0);
    assert!(empty.unwarp_plan().is_none(), "nothing to snap to");
}
