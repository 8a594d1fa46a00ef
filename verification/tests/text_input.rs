use dusk::tui::text::{display_width, fit_to_width, truncate_to_width};
use dusk::tui::widgets::progress::{format_number, spinner_frame};
use dusk::tui::widgets::text_input::{char_count, TextInputState};

#[test]
fn test_basic_input() {
    let mut state = TextInputState::new();
    state.insert('a');
    state.insert('b');
    state.insert('c');
    assert_eq!(state.query, "abc");
    assert_eq!(state.cursor, 3);

    state.backspace();
    assert_eq!(state.query, "ab");
    assert_eq!(state.cursor, 2);
}

#[test]
fn test_cursor_movement() {
    let mut state = TextInputState::new();
    state.insert('h');
    state.insert('i');
    state.move_left();
    assert_eq!(state.cursor, 1);
    state.insert('X');
    assert_eq!(state.query, "hXi");

    state.move_home();
    assert_eq!(state.cursor, 0);
    state.move_end();
    assert_eq!(state.cursor, 3);
}

#[test]
fn test_unicode_insert_and_backspace() {
    let mut state = TextInputState::new();
    state.insert('é');
    state.insert('a');
    assert_eq!(state.query, "éa");
    assert_eq!(state.cursor, 2);
    state.backspace();
    assert_eq!(state.query, "é");
    assert_eq!(state.cursor, 1);
    state.backspace();
    assert_eq!(state.query, "");
    assert_eq!(state.cursor, 0);
}

#[test]
fn test_unicode_movement() {
    let mut state = TextInputState::new();
    state.query = "αβγ".to_string();
    state.cursor = 3;
    state.move_left();
    assert_eq!(state.cursor, 2);
    state.move_left();
    assert_eq!(state.cursor, 1);
    state.move_left();
    assert_eq!(state.cursor, 0);
    state.move_right();
    assert_eq!(state.cursor, 1);
}

#[test]
fn insert_then_backspace_restores_text() {
    let mut state = TextInputState::new();
    state.query = "héllo".to_string();
    state.cursor = 2;
    state.insert('ü');
    assert_eq!(state.query, "héüllo");
    state.backspace();
    assert_eq!(state.query, "héllo");
    assert_eq!(state.cursor, 2);
}

#[test]
fn delete_and_clear() {
    let mut state = TextInputState::new();
    state.query = "abc".to_string();
    state.cursor = 1;
    state.delete();
    assert_eq!(state.query, "ac");
    assert_eq!(state.cursor, 1);
    state.cursor = 2;
    state.delete();
    assert_eq!(state.query, "ac");
    state.move_right();
    assert_eq!(state.cursor, 2);
    state.clear();
    assert_eq!(state.query, "");
    assert_eq!(state.cursor, 0);
    assert_eq!(char_count("日本"), 2);
}

#[test]
fn truncation_respects_display_width() {
    assert_eq!(display_width("日本語"), 6);
    assert_eq!(truncate_to_width("hello", 10), "hello");
    assert_eq!(truncate_to_width("hello world", 8), "hello ..");
    assert_eq!(truncate_to_width("日本語ファイル名", 7), "日本..");
    assert_eq!(truncate_to_width("abc", 0), "");
    assert_eq!(truncate_to_width("abcdef", 2), "ab");
    assert_eq!(fit_to_width("日本語", 5), "日本");
}

#[test]
fn format_number_groups_thousands() {
    assert_eq!(format_number(0), "0");
    assert_eq!(format_number(999), "999");
    assert_eq!(format_number(1000), "1,000");
    assert_eq!(format_number(1234567), "1,234,567");
    assert_eq!(format_number(1000005), "1,000,005");
    assert_eq!(format_number(u64::MAX), "18,446,744,073,709,551,615");
}

#[test]
fn spinner_turns_over() {
    assert_eq!(spinner_frame(0), '⠋');
    assert_eq!(spinner_frame(9), '⠏');
    assert_eq!(spinner_frame(10), '⠋');
}

#[test]
fn test_unicode_labels_do_not_panic_when_truncated() {
    let label = truncate_to_width("日本語ファイル名", 3);
    assert!(!label.is_empty());
    assert_eq!(label, "..");
}
