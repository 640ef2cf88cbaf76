use tindy::keys::{arrow_command, command_for, Command};
use tindy::line::list::LineList;
use tindy::mode::escape::{can_escape_key, handle_escape};
use tindy::mode::insert::{can_insert_key, handle_insert};
use tindy::mode::Mode;

fn loaded(text: &str) -> LineList {
    let mut lines = LineList::new();
    lines.load_from_file(Some(text));
    lines
}

fn texts(lines: &LineList) -> Vec<String> {
    lines.e.iter().map(|l| l.chars().iter().collect()).collect()
}

#[test]
fn insert_types_printable_keys() {
    let mut lines = loaded("ab");
    assert!(can_insert_key(&lines, 'c'));
    let (mode, s) = handle_insert(&mut lines, 'c');
    assert_eq!(mode, None);
    assert_eq!(texts(&lines), vec!["abc"]);
    assert_eq!(s, "\x1b[2K\r1 abc\r\x1b[6G");
}

#[test]
fn insert_ignores_other_control_keys() {
    let mut lines = loaded("ab");
    let (mode, s) = handle_insert(&mut lines, '\u{1}');
    assert_eq!(mode, None);
    assert_eq!(s, "");
    assert_eq!(texts(&lines), vec!["ab"]);
}

#[test]
fn insert_escape_switches_mode() {
    let mut lines = loaded("ab");
    let (mode, s) = handle_insert(&mut lines, '\u{1b}');
    assert_eq!(mode, Some(Mode::Escape));
    assert_eq!(s, "");
}

#[test]
fn insert_enter_on_last_line_moves_rest_to_new_line() {
    let mut lines = loaded("hello");
    lines.set_pos_relative(3, true);
    assert!(can_insert_key(&lines, '\n'));
    let (mode, s) = handle_insert(&mut lines, '\n');
    assert_eq!(mode, None);
    assert_eq!(texts(&lines), vec!["he", "llo"]);
    assert_eq!(lines.row, 2);
    assert_eq!(lines.current_pos(), 0);
    assert_eq!(s, "\x1b[2K\r1 he\r\x1b[5G\x1b[1E\x1b[2K\r2 llo\r\x1b[3G");
}

#[test]
fn insert_enter_carries_text_into_existing_next_line() {
    let mut lines = loaded("abcd\nxy");
    lines.row = 2;
    lines.set_pos_relative(1, true);
    lines.row = 1;
    lines.set_pos_relative(2, true);
    let (_, s) = handle_insert(&mut lines, '\n');
    assert_eq!(texts(&lines), vec!["ab", "xcdy"]);
    assert_eq!(lines.row, 2);
    assert_eq!(lines.current_pos(), 1);
    assert_eq!(s, "\x1b[2K\r1 ab\r\x1b[5G\x1b[1E\x1b[2K\r2 xcdy\r\x1b[4G");
}

#[test]
fn insert_enter_at_line_end_moves_down() {
    let mut lines = loaded("ab\ncd");
    lines.row = 1;
    let (_, s) = handle_insert(&mut lines, '\n');
    assert_eq!(texts(&lines), vec!["ab", "cd"]);
    assert_eq!(lines.row, 2);
    assert_eq!(s, "\x1b[1E\x1b[2K\r2 cd\r\x1b[5G");
}

#[test]
fn insert_backspace_deletes_a_character() {
    let mut lines = loaded("abc");
    let (_, s) = handle_insert(&mut lines, '\u{7f}');
    assert_eq!(texts(&lines), vec!["ab"]);
    assert_eq!(s, "\x1b[2K\r1 ab\r\x1b[5G");
}

#[test]
fn insert_backspace_removes_empty_line() {
    let mut lines = loaded("ab\n\ncd");
    lines.row = 2;
    assert!(can_insert_key(&lines, '\u{7f}'));
    let (_, s) = handle_insert(&mut lines, '\u{7f}');
    assert_eq!(texts(&lines), vec!["ab", "cd"]);
    assert_eq!(lines.row, 1);
    assert_eq!(s, "\x1b[2K\x1b[1F\x1b[2K\r1 ab\r\x1b[5G");
}

#[test]
fn insert_backspace_carries_line_up_and_leaves_it_empty() {
    let mut lines = loaded("ab\ncd");
    lines.row = 2;
    lines.reset_line_pos();
    let (_, s) = handle_insert(&mut lines, '\u{7f}');
    assert_eq!(texts(&lines), vec!["abcd", ""]);
    assert_eq!(lines.row, 1);
    assert_eq!(lines.current_pos(), 2);
    assert_eq!(s, "\x1b[2K\r2 \r\x1b[3G\x1b[1F\x1b[2K\r1 abcd\r\x1b[5G");
}

#[test]
fn insert_backspace_at_document_start_does_nothing() {
    let mut lines = loaded("ab");
    lines.reset_line_pos();
    let (_, s) = handle_insert(&mut lines, '\u{7f}');
    assert_eq!(s, "");
    assert_eq!(texts(&lines), vec!["ab"]);
}

#[test]
fn escape_mode_keys() {
    let mut lines = loaded("ab\ncd");
    assert!(can_escape_key(&lines, 'j'));
    let (mode, s) = handle_escape(&mut lines, 'j');
    assert_eq!(mode, None);
    assert_eq!(lines.row, 2);
    assert_eq!(s, "\x1b[1E\x1b[2K\r2 cd\r\x1b[5G");
    let (mode, s) = handle_escape(&mut lines, 'h');
    assert_eq!(mode, None);
    assert_eq!(lines.current_pos(), 1);
    assert_eq!(s, "\x1b[2K\r2 cd\r\x1b[4G");
    let (mode, _) = handle_escape(&mut lines, 'C');
    assert_eq!(mode, Some(Mode::Insert));
    assert_eq!(lines.current_pos(), 2);
    let (mode, s) = handle_escape(&mut lines, 'A');
    assert_eq!(mode, Some(Mode::Insert));
    assert_eq!(lines.row, 1);
    assert_eq!(s, "\x1b[1F\x1b[2K\r1 ab\r\x1b[5G");
    let (mode, s) = handle_escape(&mut lines, 'k');
    assert_eq!(mode, None);
    assert_eq!(s, "");
    let (mode, _) = handle_escape(&mut lines, 'i');
    assert_eq!(mode, Some(Mode::Insert));
    let (mode, _) = handle_escape(&mut lines, 'q');
    assert_eq!(mode, Some(Mode::Quit));
    let (mode, s) = handle_escape(&mut lines, 'z');
    assert_eq!(mode, None);
    assert_eq!(s, "");
}

#[test]
fn keys_map_to_commands() {
    assert_eq!(command_for('\u{c}', false), Command::Quit);
    assert_eq!(command_for('\u{17}', false), Command::Save);
    assert_eq!(command_for('\u{10}', false), Command::Preview);
    assert_eq!(command_for('\u{1}', true), Command::ToggleMoveMode);
    assert_eq!(command_for('\u{2}', false), Command::LineStart);
    assert_eq!(command_for('\u{5}', false), Command::LineEnd);
    assert_eq!(command_for('\u{1b}', false), Command::Arrow);
    assert_eq!(command_for('\n', false), Command::NewLine);
    assert_eq!(command_for('\u{7f}', false), Command::Delete);
    assert_eq!(command_for('\u{18}', false), Command::Delete);
    assert_eq!(command_for('k', true), Command::Up);
    assert_eq!(command_for('j', true), Command::Down);
    assert_eq!(command_for('l', true), Command::Right);
    assert_eq!(command_for('h', true), Command::Left);
    assert_eq!(command_for('k', false), Command::Type('k'));
    assert_eq!(command_for('x', true), Command::Type('x'));
    assert_eq!(command_for(' ', false), Command::Type(' '));
    assert_eq!(command_for('~', false), Command::Type('~'));
    assert_eq!(command_for('\u{3}', false), Command::Ignore);
    assert_eq!(command_for('é', false), Command::Ignore);
    assert_eq!(arrow_command('A'), Command::Up);
    assert_eq!(arrow_command('B'), Command::Down);
    assert_eq!(arrow_command('C'), Command::Right);
    assert_eq!(arrow_command('D'), Command::Left);
    assert_eq!(arrow_command('x'), Command::Ignore);
}

fn all_ascii_with_cursors_in_place(lines: &LineList) -> bool {
    1 <= lines.row
        && lines.row <= lines.line_count()
        && lines.e.iter().all(|l| l.chars().iter().all(|c| c.is_ascii()) && l.pos() <= l.len())
}

#[test]
fn insert_keys_on_ascii_lines_keep_them_ascii() {
    let mut lines = loaded("ab\ncd\n\nef");
    lines.row = 2;
    lines.set_pos_relative(1, true);
    let keys = ['x', '\n', '\u{7f}', '\u{7f}', '\u{7f}', 'é', '\u{1}', '\n', '\n', '\u{7f}', 'z', '\u{7f}'];
    for k in keys.iter() {
        assert!(all_ascii_with_cursors_in_place(&lines));
        assert!(can_insert_key(&lines, *k));
        let (mode, _) = handle_insert(&mut lines, *k);
        assert_eq!(mode, None);
    }
    assert!(all_ascii_with_cursors_in_place(&lines));
}

#[test]
fn insert_wide_key_is_ignored() {
    let mut lines = loaded("ab");
    let (mode, s) = handle_insert(&mut lines, 'é');
    assert_eq!(mode, None);
    assert_eq!(s, "");
    assert_eq!(texts(&lines), vec!["ab"]);
}

#[test]
fn insert_enter_is_refused_when_the_rest_of_the_line_is_not_ascii() {
    let mut lines = loaded("aé");
    lines.set_pos_relative(2, true);
    assert!(!can_insert_key(&lines, '\n'));
    lines.set_pos_relative(2, false);
    assert!(can_insert_key(&lines, '\n'));
}

#[test]
fn insert_backspace_removes_a_wide_character_whole() {
    let mut lines = loaded("aé");
    assert_eq!(lines.current_pos(), 3);
    assert!(!can_insert_key(&lines, '\u{7f}'));
    lines.set_pos_relative(1, true);
    assert!(can_insert_key(&lines, '\u{7f}'));
    let _ = handle_insert(&mut lines, '\u{7f}');
    assert_eq!(texts(&lines), vec!["a"]);
    assert_eq!(lines.current_pos(), 1);
}
