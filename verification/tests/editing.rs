use spellbook::filter_input::FilterInput;
use spellbook::highlight::highlight_spans;
use spellbook::input::InputState;

fn spans_of(name: &str, filter: &str) -> Vec<(String, bool)> {
    highlight_spans(name, filter).into_iter().map(|s| (s.text, s.matched)).collect()
}

#[test]
fn input_typing_moves_cursor() {
    let mut input = InputState::default();
    input.enter_char('f');
    input.enter_char('i');
    input.enter_char('r');
    assert_eq!(input.filter, "fir");
    assert_eq!(input.cursor_index, 3);
}

#[test]
fn input_backspace_removes_before_cursor() {
    let mut input = InputState::default();
    input.enter_char('f');
    input.enter_char('i');
    input.enter_char('r');
    input.delete_char();
    assert_eq!(input.filter, "fi");
    assert_eq!(input.cursor_index, 2);
    input.move_cursor_left();
    input.delete_char();
    assert_eq!(input.filter, "i");
    assert_eq!(input.cursor_index, 0);
    input.delete_char();
    assert_eq!(input.filter, "i");
}

#[test]
fn input_delete_removes_under_cursor() {
    let mut input = InputState::default();
    for c in "abc".chars() {
        input.enter_char(c);
    }
    input.move_cursor_left();
    input.move_cursor_left();
    input.right_delete_char();
    assert_eq!(input.filter, "ac");
    assert_eq!(input.cursor_index, 1);
    input.right_delete_char();
    assert_eq!(input.filter, "a");
    input.right_delete_char();
    assert_eq!(input.filter, "a");
}

#[test]
fn input_cursor_clamps_at_ends() {
    let mut input = InputState::default();
    input.move_cursor_left();
    assert_eq!(input.cursor_index, 0);
    input.enter_char('x');
    input.move_cursor_right();
    input.move_cursor_right();
    assert_eq!(input.cursor_index, 1);
}

#[test]
fn input_window_overflows_on_long_text() {
    let mut input = InputState::default();
    for _ in 0..40 {
        input.enter_char('a');
    }
    // The default window is 32 wide; 40 characters overflow it by 8.
    assert_eq!(input.overflow, 8);
    assert_eq!(input.filter.chars().count(), 40);
}

#[test]
fn input_byte_index_counts_multibyte_prefix() {
    let mut input = InputState::default();
    input.enter_char('é');
    input.enter_char('x');
    assert_eq!(input.byte_index(), 3);
    input.move_cursor_left();
    assert_eq!(input.byte_index(), 2);
    input.move_cursor_left();
    assert_eq!(input.byte_index(), 0);
}

#[test]
fn filter_input_edits() {
    let mut line = FilterInput::new("apps".to_string());
    assert_eq!(line.get_filter(), "");
    assert_eq!(line.get_cursor_index(), 0);
    line.enter_char('v');
    line.enter_char('m');
    line.move_cursor_left();
    line.enter_char('i');
    assert_eq!(line.get_filter(), "vim");
    assert_eq!(line.get_cursor_index(), 2);
    line.right_delete_char();
    assert_eq!(line.get_filter(), "vi");
    line.delete_char();
    assert_eq!(line.get_filter(), "v");
    assert_eq!(line.get_cursor_index(), 1);
}

#[test]
fn filter_input_byte_index() {
    let mut line = FilterInput::new(String::new());
    line.enter_char('a');
    line.enter_char('ß');
    assert_eq!(line.byte_index(), 3);
    line.move_cursor_left();
    assert_eq!(line.byte_index(), 1);
}

#[test]
fn highlight_empty_filter_is_one_unmatched_span() {
    assert_eq!(spans_of("Firefox", ""), vec![("Firefox".to_string(), false)]);
}

#[test]
fn highlight_no_occurrence_is_one_unmatched_span() {
    assert_eq!(spans_of("Firefox", "zzz"), vec![("Firefox".to_string(), false)]);
}

#[test]
fn highlight_marks_case_insensitive_occurrence() {
    assert_eq!(
        spans_of("Visual Studio Code", "code"),
        vec![
            ("Visual Studio ".to_string(), false),
            ("Code".to_string(), true),
            ("".to_string(), false),
        ]
    );
}

#[test]
fn highlight_marks_all_nonoverlapping_occurrences() {
    assert_eq!(
        spans_of("banana", "an"),
        vec![
            ("b".to_string(), false),
            ("an".to_string(), true),
            ("".to_string(), false),
            ("an".to_string(), true),
            ("a".to_string(), false),
        ]
    );
}

#[test]
fn highlight_never_overlaps() {
    // In "aaaa", the needle "aa" occurs at 0 and 2 only: each next
    // search continues from the end of the previous match.
    assert_eq!(
        spans_of("aaaa", "aa"),
        vec![
            ("aa".to_string(), true),
            ("".to_string(), false),
            ("aa".to_string(), true),
            ("".to_string(), false),
        ]
    );
}

#[test]
fn highlight_match_at_start() {
    assert_eq!(
        spans_of("Firefox", "fire"),
        vec![("Fire".to_string(), true), ("fox".to_string(), false)]
    );
}
