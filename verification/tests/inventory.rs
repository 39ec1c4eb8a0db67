use gathering::card_database::{CardDatabase, ChangeType};

#[test]
fn inc_reports_first_copy() {
    let mut db = CardDatabase::new();
    assert!(db.inc("a", false), "the first copy");
    assert!(!db.inc("a", false), "the second copy");
    assert_eq!(db.get("a"), 2);
    assert_eq!(db.get_foil("a"), 0);
}

#[test]
fn foil_and_non_foil_counts_are_separate() {
    let mut db = CardDatabase::new();
    db.inc("a", false);
    assert!(db.inc("a", true), "first foil copy counts on its own side");
    assert_eq!(db.get("a"), 1);
    assert_eq!(db.get_foil("a"), 1);
}

#[test]
fn get_of_absent_id_is_zero() {
    let db = CardDatabase::new();
    assert_eq!(db.get("missing"), 0);
    assert_eq!(db.get_foil("missing"), 0);
}

#[test]
fn dec_lowers_but_never_below_zero() {
    let mut db = CardDatabase::new();
    db.inc("a", false);
    db.dec("a", false);
    assert_eq!(db.get("a"), 0);
    let history_before = db.history.len();
    db.dec("a", false);
    assert_eq!(db.get("a"), 0, "a zero count stays zero");
    assert_eq!(db.history.len(), history_before + 1, "the change is still recorded");
}

#[test]
fn dec_of_absent_id_changes_nothing() {
    let mut db = CardDatabase::new();
    db.inc("a", false);
    let history_before = db.history.len();
    db.dec("z", false);
    assert_eq!(db.get("a"), 1);
    assert_eq!(db.history.len(), history_before);
}

#[test]
fn set_writes_the_count() {
    let mut db = CardDatabase::new();
    db.set("a", 10, false);
    assert_eq!(db.get("a"), 10);
    db.set("a", 3, true);
    assert_eq!(db.get_foil("a"), 3);
    assert_eq!(db.get("a"), 10, "the other side is untouched");
    db.set("a", 0, false);
    assert_eq!(db.get("a"), 0);
}

#[test]
fn history_records_each_change() {
    let mut db = CardDatabase::new();
    db.inc("a", false);
    db.dec("a", false);
    db.set("b", 4, true);
    assert_eq!(db.history.len(), 3);
    assert_eq!(db.history[0].file_name, "a");
    assert_eq!(db.history[0].change_type, ChangeType::Inc);
    assert_eq!(db.history[0].updated_value, 1);
    assert!(!db.history[0].foil);
    assert_eq!(db.history[1].change_type, ChangeType::Dec);
    assert_eq!(db.history[1].updated_value, 0);
    assert_eq!(db.history[2].file_name, "b");
    assert_eq!(db.history[2].change_type, ChangeType::SetTo);
    assert_eq!(db.history[2].updated_value, 4);
    assert!(db.history[2].foil);
}

#[test]
fn record_change_reads_the_current_count() {
    let mut db = CardDatabase::new();
    db.set("a", 7, false);
    db.record_change(String::from("a"), ChangeType::SetTo, false);
    let last = db.history.last().expect("history entry expected");
    assert_eq!(last.updated_value, 7);
    assert_eq!(last.file_name, "a");
}

#[test]
fn total_cards_sums_both_sides() {
    let mut db = CardDatabase::new();
    db.set("a", 10, false);
    db.set("a", 3, true);
    db.set("b", 2, false);
    assert_eq!(db.total_cards(), 15);
}

#[test]
fn recent_files_dedups_newest_first() {
    let mut db = CardDatabase::new();
    db.inc("a", false);
    db.inc("b", false);
    db.inc("a", false);
    let recent = db.recent_files();
    assert_eq!(recent, vec![String::from("a"), String::from("b")]);
}

#[test]
fn recent_files_of_empty_history_is_empty() {
    let db = CardDatabase::new();
    assert!(db.recent_files().is_empty());
}

#[test]
fn recent_files_keeps_at_most_sixty() {
    let mut db = CardDatabase::new();
    for i in 0..70 {
        db.inc(&format!("card{}", i), false);
    }
    let recent = db.recent_files();
    assert_eq!(recent.len(), 60);
    assert_eq!(recent[0], "card69", "newest first");
    assert_eq!(recent[59], "card10");
}
