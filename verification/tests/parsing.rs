use spellbook::application::Application;
use spellbook::db::Db;
use spellbook::icon::{resolve_icon, IconColor};

fn empty_db() -> Db {
    Db::empty()
}

fn descriptor(terminal_line: &str) -> String {
    format!(
        "[Desktop Entry]\nName=Sample\nExec=sample\n{}\n",
        terminal_line
    )
}

#[test]
fn terminal_true_lowercase() {
    let app = Application::from_content(&descriptor("Terminal=true"), &empty_db()).unwrap();
    assert!(app.terminal);
}

#[test]
fn terminal_true_capitalised() {
    let app = Application::from_content(&descriptor("Terminal=True"), &empty_db()).unwrap();
    assert!(app.terminal);
}

#[test]
fn terminal_false_lowercase() {
    let app = Application::from_content(&descriptor("Terminal=false"), &empty_db()).unwrap();
    assert!(!app.terminal);
}

#[test]
fn terminal_false_capitalised() {
    let app = Application::from_content(&descriptor("Terminal=False"), &empty_db()).unwrap();
    assert!(!app.terminal);
}

#[test]
fn terminal_other_literal_discards() {
    assert!(Application::from_content(&descriptor("Terminal=yes"), &empty_db()).is_none());
    assert!(Application::from_content(&descriptor("Terminal=1"), &empty_db()).is_none());
}

#[test]
fn terminal_absent_discards() {
    let content = "[Desktop Entry]\nName=Sample\nExec=sample\n";
    assert!(Application::from_content(content, &empty_db()).is_none());
}

#[test]
fn name_absent_discards() {
    let content = "[Desktop Entry]\nExec=sample\nTerminal=false\n";
    assert!(Application::from_content(content, &empty_db()).is_none());
}

#[test]
fn exec_absent_discards() {
    let content = "[Desktop Entry]\nName=Sample\nTerminal=false\n";
    assert!(Application::from_content(content, &empty_db()).is_none());
}

#[test]
fn section_absent_discards() {
    let content = "[Other]\nName=Sample\nExec=sample\nTerminal=false\n";
    assert!(Application::from_content(content, &empty_db()).is_none());
}

#[test]
fn unreadable_structure_discards() {
    let content = "[Desktop Entry\nName=Broken";
    assert!(Application::from_content(content, &empty_db()).is_none());
}

#[test]
fn placeholder_tokens_are_stripped_everywhere() {
    let content =
        "[Desktop Entry]\nName=Sample\nExec=env FOO=1 %i sample %u --flag %F\nTerminal=false\n";
    let app = Application::from_content(content, &empty_db()).unwrap();
    assert_eq!(app.filename, "env");
    assert_eq!(app.args, vec!["FOO=1".to_string(), "sample".to_string(), "--flag".to_string()]);
}

#[test]
fn all_tokens_placeholders_discards() {
    let content = "[Desktop Entry]\nName=Sample\nExec=%u %F\nTerminal=false\n";
    assert!(Application::from_content(content, &empty_db()).is_none());
}

#[test]
fn firefox_descriptor_scenario() {
    let content =
        "[Desktop Entry]\nName=Firefox\nExec=firefox %u\nTerminal=false\nCategories=Network\n";
    let app = Application::from_content(content, &empty_db()).unwrap();
    assert_eq!(app.name, "Firefox");
    assert_eq!(app.filename, "firefox");
    assert!(app.args.is_empty());
    assert!(!app.terminal);
    // "Firefox" stands in the exact-name table, which is consulted
    // before the category table.
    assert_eq!(app.icon.symbol, "󰈹");
    assert_eq!(app.icon.color, IconColor::LightRed);
    assert_eq!(app.db_entry.name, "Firefox");
    assert_eq!(app.db_entry.launch_count, 0);
    assert!(!app.db_entry.blacklisted);
}

#[test]
fn category_icon_used_when_name_unknown() {
    let content =
        "[Desktop Entry]\nName=SomeBrowser\nExec=somebrowser\nTerminal=false\nCategories=Junk;Network\n";
    let app = Application::from_content(content, &empty_db()).unwrap();
    let expected = resolve_icon("SomeBrowser", &vec!["Junk".to_string(), "Network".to_string()]);
    assert_eq!(app.icon.symbol, expected.symbol);
    // "Network" maps to the network glyph in blue.
    assert_eq!(app.icon.color, IconColor::Blue);
}

#[test]
fn default_icon_when_nothing_matches() {
    let content = "[Desktop Entry]\nName=Obscure\nExec=obscure\nTerminal=false\n";
    let app = Application::from_content(content, &empty_db()).unwrap();
    assert_eq!(app.icon.symbol, " ");
    assert_eq!(app.icon.color, IconColor::White);
}

#[test]
fn comment_is_kept() {
    let content =
        "[Desktop Entry]\nName=Sample\nExec=sample\nTerminal=false\nComment=A sample program\n";
    let app = Application::from_content(content, &empty_db()).unwrap();
    assert_eq!(app.comment.as_deref(), Some("A sample program"));
}

#[test]
fn usage_record_joined_from_store() {
    let mut db = Db::empty();
    db.entries.push(spellbook::db::DbEntry {
        name: "Sample".to_string(),
        launch_count: 7,
        blacklisted: true,
    });
    let app = Application::from_content(&descriptor("Terminal=false"), &db).unwrap();
    assert_eq!(app.db_entry.launch_count, 7);
    assert!(app.db_entry.blacklisted);
}

#[test]
fn duplicate_names_both_survive() {
    let a = "[Desktop Entry]\nName=Firefox\nExec=firefox\nTerminal=false\n".to_string();
    let b = "[Desktop Entry]\nName=Firefox\nExec=/opt/firefox/firefox\nTerminal=false\n"
        .to_string();
    let catalog = Application::build_catalog(&vec![a, b], &Db::empty());
    assert_eq!(catalog.len(), 2);
    assert_eq!(catalog[0].name, "Firefox");
    assert_eq!(catalog[1].name, "Firefox");
    assert_eq!(catalog[0].filename, "firefox");
    assert_eq!(catalog[1].filename, "/opt/firefox/firefox");
}

#[test]
fn broken_descriptors_are_skipped_in_catalog() {
    let good = "[Desktop Entry]\nName=Good\nExec=good\nTerminal=false\n".to_string();
    let bad = "not a descriptor at all \u{1}\u{2}".to_string();
    let missing = "[Desktop Entry]\nName=NoExec\nTerminal=false\n".to_string();
    let catalog = Application::build_catalog(&vec![bad, good.clone(), missing], &Db::empty());
    assert_eq!(catalog.len(), 1);
    assert_eq!(catalog[0].name, "Good");
}

#[test]
fn categories_split_on_semicolons() {
    let content =
        "[Desktop Entry]\nName=Writer\nExec=writer\nTerminal=false\nCategories=Junk;Office;\n";
    let app = Application::from_content(content, &empty_db()).unwrap();
    // "Office" is the first category with a table entry.
    assert_eq!(app.icon.color, IconColor::White);
    assert_eq!(app.icon.symbol, "󰈙");
}
