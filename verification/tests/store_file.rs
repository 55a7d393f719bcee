use spellbook::db::{Db, DbEntry};

fn entry(name: &str, launch_count: usize, blacklisted: bool) -> DbEntry {
    DbEntry { name: name.to_string(), launch_count, blacklisted }
}

fn assert_entries_eq(a: &[DbEntry], b: &[(&str, usize, bool)]) {
    assert_eq!(a.len(), b.len());
    for (x, y) in a.iter().zip(b.iter()) {
        assert_eq!(x.name, y.0);
        assert_eq!(x.launch_count, y.1);
        assert_eq!(x.blacklisted, y.2);
    }
}

#[test]
fn exact_store_text_for_one_record() {
    let entries = vec![entry("Firefox", 3, false)];
    let text = Db::to_store_string(&entries);
    assert_eq!(
        text,
        "[[entries]]\nname = \"Firefox\"\nlaunch_count = 3\nblacklisted = false\n"
    );
}

#[test]
fn exact_store_text_for_two_records() {
    let entries = vec![entry("A", 0, false), entry("B", 12, true)];
    let text = Db::to_store_string(&entries);
    assert_eq!(
        text,
        "[[entries]]\nname = \"A\"\nlaunch_count = 0\nblacklisted = false\n[[entries]]\nname = \"B\"\nlaunch_count = 12\nblacklisted = true\n"
    );
}

#[test]
fn round_trip_plain_records() {
    let entries = vec![entry("Firefox", 3, false), entry("Vim", 41, true), entry("", 0, false)];
    let text = Db::to_store_string(&entries);
    let db = Db::from_store_str(&text);
    assert_entries_eq(&db.entries, &[("Firefox", 3, false), ("Vim", 41, true), ("", 0, false)]);
}

#[test]
fn round_trip_escaped_names() {
    let tricky = "a\"b\\c\nd";
    let entries = vec![entry(tricky, 5, true)];
    let text = Db::to_store_string(&entries);
    let db = Db::from_store_str(&text);
    assert_entries_eq(&db.entries, &[(tricky, 5, true)]);
}

#[test]
fn round_trip_large_count() {
    let entries = vec![entry("Busy", usize::MAX, false)];
    let text = Db::to_store_string(&entries);
    let db = Db::from_store_str(&text);
    assert_entries_eq(&db.entries, &[("Busy", usize::MAX, false)]);
}

#[test]
fn empty_store_round_trips_to_empty_text() {
    let entries: Vec<DbEntry> = Vec::new();
    let text = Db::to_store_string(&entries);
    assert_eq!(text, "");
    let db = Db::from_store_str(&text);
    assert!(db.entries.is_empty());
}

#[test]
fn malformed_text_falls_back_to_empty() {
    assert!(Db::from_store_str("not a store").entries.is_empty());
    assert!(Db::from_store_str("[[entries]]\nname = \"X\"\n").entries.is_empty());
    assert!(Db::from_store_str("[[entries]]\nname = \"X\"\nlaunch_count = banana\nblacklisted = false\n")
        .entries
        .is_empty());
    assert!(Db::from_store_str("[[entries]]\nname = \"X\"\nlaunch_count = 1\nblacklisted = maybe\n")
        .entries
        .is_empty());
}

#[test]
fn trailing_garbage_rejects_whole_store() {
    let text = "[[entries]]\nname = \"X\"\nlaunch_count = 1\nblacklisted = false\nleftover";
    assert!(Db::from_store_str(text).entries.is_empty());
}

#[test]
fn store_path_under_home() {
    assert_eq!(Db::get_full_path("/home/someone"), "/home/someone/.config/spellbook/spells.toml");
    assert_eq!(
        spellbook::config::Config::get_full_path("/home/someone"),
        "/home/someone/.config/spellbook/spellbook.toml"
    );
}

#[test]
fn reconcile_adds_defaults_for_new_names() {
    // Store file absent at startup: the fallback is the empty store,
    // and three discovered applications yield three default records.
    let mut db = Db::empty();
    let names = vec!["A".to_string(), "B".to_string(), "C".to_string()];
    db.reconcile(&names);
    assert_entries_eq(&db.entries, &[("A", 0, false), ("B", 0, false), ("C", 0, false)]);
}

#[test]
fn reconcile_keeps_existing_and_stale_records() {
    let mut db = Db { entries: vec![entry("Gone", 9, true), entry("Here", 2, false)] };
    let names = vec!["Here".to_string(), "New".to_string()];
    db.reconcile(&names);
    assert_entries_eq(
        &db.entries,
        &[("Gone", 9, true), ("Here", 2, false), ("New", 0, false)],
    );
}

#[test]
fn reconcile_one_record_per_duplicate_name() {
    let mut db = Db::empty();
    let names = vec!["Twin".to_string(), "Twin".to_string()];
    db.reconcile(&names);
    assert_entries_eq(&db.entries, &[("Twin", 0, false)]);
}

#[test]
fn increment_bumps_every_matching_record() {
    let mut db = Db { entries: vec![entry("A", 1, false), entry("B", 5, false)] };
    db.increment(&"A".to_string());
    assert_entries_eq(&db.entries, &[("A", 2, false), ("B", 5, false)]);
}

#[test]
fn blacklist_marks_every_matching_record() {
    let mut db = Db { entries: vec![entry("A", 1, false), entry("B", 5, false)] };
    db.blacklist(&"B".to_string());
    assert_entries_eq(&db.entries, &[("A", 1, false), ("B", 5, true)]);
}

#[test]
fn sorted_entries_are_name_ordered() {
    let mut entries = vec![entry("zeta", 1, false), entry("Alpha", 2, false), entry("beta", 3, true)];
    spellbook::db::sort_entries_by_name(&mut entries);
    // Plain code-point order: capitals sort before lowercase.
    assert_entries_eq(&entries, &[("Alpha", 2, false), ("beta", 3, true), ("zeta", 1, false)]);
}

#[test]
fn launch_count_survives_save_and_load() {
    let mut db = Db { entries: vec![entry("Firefox", 0, false)] };
    for _ in 0..4 {
        db.increment(&"Firefox".to_string());
    }
    let text = Db::to_store_string(&db.entries);
    let reloaded = Db::from_store_str(&text);
    assert_entries_eq(&reloaded.entries, &[("Firefox", 4, false)]);
}
