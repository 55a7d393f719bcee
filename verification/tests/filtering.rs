use spellbook::application::Application;
use spellbook::applist::{sort_applications, ApplicationListState};
use spellbook::config::ApplicationListOrder;
use spellbook::db::{Db, DbEntry};
use spellbook::icon::Icon;
use spellbook::launcher::{prepare_launch, LaunchMethod};

fn app(name: &str, count: usize, blacklisted: bool, terminal: bool) -> Application {
    Application {
        name: name.to_string(),
        filename: name.to_lowercase(),
        args: Vec::new(),
        terminal,
        comment: None,
        icon: Icon::empty(),
        db_entry: DbEntry { name: name.to_string(), launch_count: count, blacklisted },
    }
}

fn state_of(apps: Vec<Application>) -> ApplicationListState {
    let entries = apps.iter().map(|a| a.db_entry.clone()).collect::<Vec<_>>();
    ApplicationListState::new(apps, Db { entries })
}

fn names(state: &ApplicationListState) -> Vec<String> {
    state.filtered_applications.iter().map(|a| a.name.clone()).collect()
}

#[test]
fn filter_is_case_insensitive_substring() {
    let mut state = state_of(vec![
        app("Visual Studio Code", 0, false, false),
        app("Firefox", 0, false, false),
    ]);
    state.update("code");
    assert_eq!(names(&state), vec!["Visual Studio Code".to_string()]);
    state.update("CODE");
    assert_eq!(names(&state), vec!["Visual Studio Code".to_string()]);
    state.update("studio c");
    assert_eq!(names(&state), vec!["Visual Studio Code".to_string()]);
}

#[test]
fn empty_filter_shows_everything_not_blacklisted() {
    let mut state = state_of(vec![
        app("A", 0, false, false),
        app("B", 0, true, false),
        app("C", 0, false, false),
    ]);
    state.update("");
    assert_eq!(names(&state), vec!["A".to_string(), "C".to_string()]);
}

#[test]
fn blacklisted_absent_for_every_filter() {
    let mut state = state_of(vec![app("Banned", 0, true, false), app("Bann", 0, false, false)]);
    for filter in ["", "b", "ban", "Banned", "n"] {
        state.update(filter);
        assert!(state.filtered_applications.iter().all(|a| !a.db_entry.blacklisted));
        assert!(names(&state).iter().all(|n| n != "Banned"));
    }
}

#[test]
fn cursor_stays_in_bounds_over_any_moves() {
    let mut state = state_of(vec![
        app("A", 0, false, false),
        app("B", 0, false, false),
        app("C", 0, false, false),
    ]);
    state.update("");
    assert_eq!(state.cursor, Some(0));
    state.select_previous();
    assert_eq!(state.cursor, Some(0));
    state.select_next();
    state.select_next();
    assert_eq!(state.cursor, Some(2));
    state.select_next();
    assert_eq!(state.cursor, Some(2));
    state.select_previous();
    assert_eq!(state.cursor, Some(1));
}

#[test]
fn cursor_is_none_exactly_when_view_empty() {
    let mut state = state_of(vec![app("Alpha", 0, false, false)]);
    state.update("zzz");
    assert_eq!(state.cursor, None);
    assert!(state.selected().is_none());
    state.select_next();
    assert_eq!(state.cursor, None);
    state.select_previous();
    assert_eq!(state.cursor, None);
    state.update("al");
    assert_eq!(state.cursor, Some(0));
    assert_eq!(state.selected().unwrap().name, "Alpha");
}

#[test]
fn backspace_refilter_clamps_cursor() {
    // Filter "fire", then backspace to "fir": the view is recomputed
    // from the full set, and a cursor past the new end is clamped to
    // the new last index.
    let mut state = state_of(vec![
        app("Fire", 0, false, false),
        app("Firefox", 0, false, false),
        app("Firmware Updater", 0, false, false),
    ]);
    state.update("fire");
    assert_eq!(names(&state), vec!["Fire".to_string(), "Firefox".to_string()]);
    state.select_next();
    assert_eq!(state.cursor, Some(1));
    state.update("fir");
    assert_eq!(
        names(&state),
        vec!["Fire".to_string(), "Firefox".to_string(), "Firmware Updater".to_string()]
    );
    assert_eq!(state.cursor, Some(1));

    // And the other way: a cursor on the last of three falls back to
    // the last of two.
    state.select_next();
    assert_eq!(state.cursor, Some(2));
    state.update("fire");
    assert_eq!(state.cursor, Some(1));
}

#[test]
fn blacklisting_selected_hides_it_and_persists() {
    let mut state = state_of(vec![app("Foo", 0, false, false), app("Bar", 0, false, false)]);
    state.update("");
    let selected = state.selected().unwrap();
    assert_eq!(selected.name, "Foo");
    state.blacklist(&selected);
    state.update("");
    assert_eq!(names(&state), vec!["Bar".to_string()]);
    let persisted = state.persisted_entries();
    let foo = persisted.iter().find(|e| e.name == "Foo").unwrap();
    assert!(foo.blacklisted);
    let reloaded = Db::from_store_str(&Db::to_store_string(&persisted));
    assert!(reloaded.entries.iter().find(|e| e.name == "Foo").unwrap().blacklisted);
}

#[test]
fn n_launches_add_exactly_n_and_round_trip() {
    let mut state = state_of(vec![app("Firefox", 2, false, false)]);
    state.update("");
    let n = 5;
    for _ in 0..n {
        let plan = prepare_launch(&mut state, true).unwrap();
        assert_eq!(plan.executable, "firefox");
        assert_eq!(plan.method, LaunchMethod::DetachSpawn);
        assert!(plan.keep_alive);
    }
    assert_eq!(state.applications[0].db_entry.launch_count, 2 + n);
    let persisted = state.persisted_entries();
    assert_eq!(persisted[0].launch_count, 2 + n);
    let reloaded = Db::from_store_str(&Db::to_store_string(&persisted));
    assert_eq!(reloaded.entries[0].launch_count, 2 + n);
}

#[test]
fn launch_of_terminal_program_replaces_process() {
    let mut state = state_of(vec![app("Vim", 0, false, true)]);
    state.update("");
    let plan = prepare_launch(&mut state, false).unwrap();
    assert_eq!(plan.method, LaunchMethod::ExecReplace);
    assert!(!plan.keep_alive);
    assert_eq!(state.store.entries[0].launch_count, 1);
}

#[test]
fn launch_without_selection_does_nothing() {
    let mut state = state_of(vec![app("Vim", 0, false, true)]);
    state.update("nothing matches this");
    assert!(prepare_launch(&mut state, false).is_none());
    assert_eq!(state.store.entries[0].launch_count, 0);
}

#[test]
fn increment_touches_every_duplicate() {
    let mut state = state_of(vec![app("Twin", 0, false, false), app("Twin", 3, false, false)]);
    state.update("");
    let selected = state.selected().unwrap();
    state.increment_launch_count(&selected);
    assert_eq!(state.applications[0].db_entry.launch_count, 1);
    assert_eq!(state.applications[1].db_entry.launch_count, 4);
}

#[test]
fn alphabetical_order_folds_case() {
    let mut apps = vec![
        app("vim", 0, false, false),
        app("Code", 0, false, false),
        app("blender", 0, false, false),
    ];
    sort_applications(&mut apps, ApplicationListOrder::Alphabetical);
    let sorted: Vec<String> = apps.iter().map(|a| a.name.clone()).collect();
    assert_eq!(sorted, vec!["blender".to_string(), "Code".to_string(), "vim".to_string()]);
}

#[test]
fn most_used_order_breaks_ties_by_name() {
    let mut apps = vec![
        app("beta", 1, false, false),
        app("Alpha", 1, false, false),
        app("gamma", 7, false, false),
    ];
    sort_applications(&mut apps, ApplicationListOrder::MostUsed);
    let sorted: Vec<(String, usize)> =
        apps.iter().map(|a| (a.name.clone(), a.db_entry.launch_count)).collect();
    assert_eq!(
        sorted,
        vec![("gamma".to_string(), 7), ("Alpha".to_string(), 1), ("beta".to_string(), 1)]
    );
}

#[test]
fn set_ordering_reorders_the_view() {
    let mut state = state_of(vec![
        app("zed", 9, false, false),
        app("ant", 1, false, false),
    ]);
    state.update("");
    state.set_ordering(ApplicationListOrder::Alphabetical);
    assert_eq!(names(&state), vec!["ant".to_string(), "zed".to_string()]);
    state.set_ordering(ApplicationListOrder::MostUsed);
    assert_eq!(names(&state), vec!["zed".to_string(), "ant".to_string()]);
}
