use gathering::search::{filter_string, rank, search, IdFileMap, TokenSet};
use gathering::text::clean_recognized_text;

fn vocab(words: &[&str]) -> TokenSet {
    let mut v = TokenSet::new();
    for w in words {
        v.insert(String::from(*w));
    }
    v
}

#[test]
fn filter_string_keeps_known_tokens_in_original_spelling() {
    let v = vocab(&["lightning", "bolt"]);
    let r = filter_string(String::from("Lightning Bolt strikes"), &v);
    assert_eq!(r, "Lightning Bolt");
}

#[test]
fn filter_string_lowercases_before_lookup() {
    // fails if lower-case folding handed its input back unchanged
    let v = vocab(&["giant"]);
    assert_eq!(filter_string(String::from("GIANT"), &v), "GIANT");
    assert_eq!(filter_string(String::from("GiAnT growth"), &v), "GiAnT");
}

#[test]
fn filter_string_keeps_at_most_four_tokens() {
    let v = vocab(&["a", "b", "c", "d", "e"]);
    let r = filter_string(String::from("a b c d e"), &v);
    assert_eq!(r, "a b c d");
}

#[test]
fn filter_string_of_unknown_text_is_empty() {
    let v = vocab(&["known"]);
    assert_eq!(filter_string(String::from("other words only"), &v), "");
    assert_eq!(filter_string(String::from("   "), &v), "");
    assert_eq!(filter_string(String::from(""), &v), "");
}

#[test]
fn filter_string_splits_on_any_whitespace() {
    let v = vocab(&["grizzly", "bears"]);
    let r = filter_string(String::from("  grizzly\t\nbears  "), &v);
    assert_eq!(r, "grizzly bears");
}

#[test]
fn clean_text_cuts_junk_and_trims() {
    assert_eq!(clean_recognized_text("  ++Abc def!rest"), "Abc def");
    assert_eq!(clean_recognized_text("Hello World"), "Hello World");
    assert_eq!(clean_recognized_text("++--"), "");
    assert_eq!(clean_recognized_text(""), "");
}

#[test]
fn clean_text_caps_at_twenty_characters() {
    let r = clean_recognized_text("a234567890123456789012345");
    assert_eq!(r, "a2345678901234567890");
    assert_eq!(r.chars().count(), 20);
}

#[test]
fn clean_text_starts_at_first_alphanumeric() {
    assert_eq!(clean_recognized_text("~~~7 of hearts"), "7 of hearts");
}

#[test]
fn rank_orders_by_score_descending() {
    let scored = vec![
        (5, String::from("low")),
        (9, String::from("high")),
        (7, String::from("mid")),
    ];
    assert_eq!(
        rank(scored),
        vec![String::from("high"), String::from("mid"), String::from("low")]
    );
}

#[test]
fn rank_breaks_ties_by_position() {
    let scored = vec![(5, String::from("x")), (5, String::from("y"))];
    assert_eq!(rank(scored), vec![String::from("x"), String::from("y")]);
}

#[test]
fn rank_caps_at_thirty() {
    let scored: Vec<(u64, String)> = (0..35u64).map(|i| (i, format!("id{}", i))).collect();
    let r = rank(scored);
    assert_eq!(r.len(), 30);
    assert_eq!(r[0], "id34");
    assert_eq!(r[29], "id5");
}

#[test]
fn rank_of_nothing_is_empty() {
    assert!(rank(vec![]).is_empty());
}

#[test]
fn search_renders_rows_in_ranking_order() {
    let mut map = IdFileMap::new();
    map.insert(
        String::from("id1"),
        vec![String::from("f1.jpg"), String::from("f2.jpg")],
    );
    map.insert(String::from("id2"), vec![String::from("f3.jpg")]);
    let ranked = vec![String::from("id1"), String::from("id2")];
    let r = search(&ranked, &map);
    assert_eq!(
        r,
        "{\"uuid\": \"f1.jpg\"}, {\"uuid\": \"f2.jpg\"}, {\"uuid\": \"f3.jpg\"}"
    );
}

#[test]
fn search_of_no_results_is_empty() {
    let map = IdFileMap::new();
    assert_eq!(search(&vec![], &map), "");
}

#[test]
fn token_set_contains_exact_words() {
    let v = vocab(&["island"]);
    assert!(v.contains(&String::from("island")));
    assert!(!v.contains(&String::from("Island")));
    assert!(!v.contains(&String::from("isle")));
}
