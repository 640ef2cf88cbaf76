use tindy::cursor::home;
use tindy::draw::{clear, frame};
use tindy::handle::action::ActionHandler;
use tindy::handle::movement::MovementHandler;
use tindy::line::list::LineList;
use tindy::terminal::Terminal;

fn loaded(text: &str) -> LineList {
    let mut lines = LineList::new();
    lines.load_from_file(Some(text));
    lines
}

fn texts(lines: &LineList) -> Vec<String> {
    lines.e.iter().map(|l| l.chars().iter().collect()).collect()
}

fn positions(lines: &LineList) -> Vec<usize> {
    lines.e.iter().map(|l| l.pos()).collect()
}

fn row_text(n: usize, digits: usize, text: &str, pos: usize, max_cols: usize) -> String {
    let rowc = format!("{}", n).len();
    let padding = digits - rowc;
    format!(
        "\r\x1b[3C{}\r\x1b[3C{}\x1b[1;35m{}\x1b[0m {}\r\x1b[{}G",
        " ".repeat(max_cols - 6),
        " ".repeat(padding),
        n,
        text,
        pos + rowc + padding + 5
    )
}

fn term() -> Terminal {
    Terminal::new(6, 8)
}

fn redraw(t: &Terminal, move_mode: bool) -> String {
    clear() + &frame(t, move_mode, "doc") + &home()
}

#[test]
fn move_right_and_left_within_a_line() {
    let mut lines = loaded("abc");
    lines.reset_line_pos();
    let mut mv = MovementHandler::new(term(), String::from("doc"));
    assert!(mv.can_handle_right(&lines));
    let s = mv.handle_right(&mut lines);
    assert_eq!(lines.current_pos(), 1);
    assert_eq!(s, row_text(1, 1, "abc", 1, 6));
    let s = mv.handle_left(&mut lines);
    assert_eq!(lines.current_pos(), 0);
    assert_eq!(s, row_text(1, 1, "abc", 0, 6));
    let s = mv.handle_left(&mut lines);
    assert_eq!(lines.current_pos(), 0);
    assert_eq!(s, "");
}

#[test]
fn move_right_stops_at_line_end() {
    let mut lines = loaded("ab");
    let mut mv = MovementHandler::new(term(), String::from("doc"));
    let s = mv.handle_right(&mut lines);
    assert_eq!(s, "");
    assert_eq!(lines.current_pos(), 2);
}

#[test]
fn move_to_start_and_end() {
    let mut lines = loaded("hello");
    let mut mv = MovementHandler::new(term(), String::from("doc"));
    assert!(mv.can_handle_move_to_start(&lines));
    let s = mv.handle_move_to_start(&mut lines);
    assert_eq!(lines.current_pos(), 0);
    assert_eq!(s, row_text(1, 1, "hello", 0, 6));
    assert!(mv.can_handle_move_to_end(&lines));
    let s = mv.handle_move_to_end(&mut lines);
    assert_eq!(lines.current_pos(), 5);
    assert_eq!(s, row_text(1, 1, "hello", 5, 6));
}

#[test]
fn move_down_and_up_without_paging() {
    let mut lines = loaded("a\nbb\nccc");
    let mut mv = MovementHandler::new(term(), String::from("doc"));
    assert!(mv.can_handle_down(&lines));
    let s = mv.handle_down(&mut lines, false);
    assert_eq!(lines.row, 2);
    assert_eq!(s, String::from("\x1b[1E") + &row_text(2, 1, "bb", 2, 6));
    assert!(mv.can_handle_up(&lines));
    let s = mv.handle_up(&mut lines, false);
    assert_eq!(lines.row, 1);
    assert_eq!(s, String::from("\x1b[1F") + &row_text(1, 1, "a", 1, 6));
    let s = mv.handle_up(&mut lines, false);
    assert_eq!(lines.row, 1);
    assert_eq!(s, "");
}

#[test]
fn move_down_stops_at_last_line() {
    let mut lines = loaded("a\nb");
    lines.row = 2;
    let mut mv = MovementHandler::new(term(), String::from("doc"));
    let s = mv.handle_down(&mut lines, false);
    assert_eq!(s, "");
    assert_eq!(lines.row, 2);
}

#[test]
fn move_down_pages_at_screen_bottom() {
    let text: Vec<String> = (1..=8).map(|i| format!("{}", i)).collect();
    let mut lines = loaded(&text.join("\n"));
    let t = Terminal::new(6, 8);
    lines.row = 6;
    let mut mv = MovementHandler::new(t, String::from("doc"));
    assert!(mv.can_handle_down(&lines));
    let s = mv.handle_down(&mut lines, true);
    assert_eq!(lines.row, 7);
    assert_eq!(lines.top_row, 7);
    let expected = redraw(&t, true)
        + &row_text(7, 1, "7", 1, 8) + "\n"
        + &row_text(8, 1, "8", 1, 8)
        + &home()
        + &row_text(7, 1, "7", 1, 6);
    assert_eq!(s, expected);
}

#[test]
fn move_up_pages_at_screen_top() {
    let text: Vec<String> = (1..=8).map(|i| format!("{}", i)).collect();
    let mut lines = loaded(&text.join("\n"));
    let t = Terminal::new(3, 8);
    lines.top_row = 4;
    lines.row = 4;
    let mut mv = MovementHandler::new(t, String::from("doc"));
    assert!(mv.can_handle_up(&lines));
    let s = mv.handle_up(&mut lines, false);
    assert_eq!(lines.top_row, 1);
    assert_eq!(lines.row, 3);
    let expected = redraw(&t, false)
        + &row_text(1, 1, "1", 1, 8) + "\n"
        + &row_text(2, 1, "2", 1, 8) + "\n"
        + &row_text(3, 1, "3", 1, 8);
    assert_eq!(s, expected);
}

#[test]
fn move_up_refuses_paging_past_the_top() {
    let mut lines = loaded("1\n2\n3");
    lines.top_row = 2;
    lines.row = 2;
    let mv = MovementHandler::new(Terminal::new(6, 8), String::from("doc"));
    assert!(!mv.can_handle_up(&lines));
}

#[test]
fn add_char_types_at_cursor() {
    let mut lines = loaded("ac");
    lines.set_pos_relative(1, true);
    let mut act = ActionHandler::new(term(), String::from("doc"));
    assert!(act.can_add(&lines, 'b'));
    let s = act.add_char(&mut lines, 'b');
    assert_eq!(texts(&lines), vec!["abc"]);
    assert_eq!(lines.current_pos(), 2);
    assert_eq!(s, row_text(1, 1, "abc", 2, 6));
}

#[test]
fn new_line_breaks_the_line_at_the_cursor() {
    let mut lines = loaded("hello\nworld");
    lines.set_pos_relative(3, true);
    let t = term();
    let mut act = ActionHandler::new(t, String::from("doc"));
    assert!(act.can_new_line(&lines));
    let s = act.new_line(&mut lines, false);
    assert_eq!(texts(&lines), vec!["he", "llo", "world"]);
    assert_eq!(positions(&lines), vec![2, 0, 5]);
    assert_eq!(lines.row, 2);
    assert_eq!(lines.top_row, 1);
    assert_eq!(lines.join(), "he\nllo\nworld");
    let expected = redraw(&t, false)
        + &row_text(1, 1, "he", 2, 8) + "\n"
        + &row_text(2, 1, "llo", 0, 8) + "\n"
        + &row_text(3, 1, "world", 5, 8)
        + &home()
        + "\x1b[1E"
        + &row_text(2, 1, "llo", 0, 6);
    assert_eq!(s, expected);
}

#[test]
fn new_line_at_end_of_last_line_adds_empty_line() {
    let mut lines = loaded("abc");
    let mut act = ActionHandler::new(term(), String::from("doc"));
    let _ = act.new_line(&mut lines, false);
    assert_eq!(texts(&lines), vec!["abc", ""]);
    assert_eq!(lines.row, 2);
}

#[test]
fn new_line_refuses_a_row_on_a_screen_multiple() {
    let text: Vec<String> = (1..=8).map(|i| format!("{}", i)).collect();
    let mut lines = loaded(&text.join("\n"));
    lines.row = 5;
    let act = ActionHandler::new(Terminal::new(6, 8), String::from("doc"));
    assert!(!act.can_new_line(&lines));
}

#[test]
fn new_line_pages_down_at_screen_bottom() {
    let text: Vec<String> = (1..=8).map(|i| format!("{}", i)).collect();
    let mut lines = loaded(&text.join("\n"));
    let t = Terminal::new(6, 8);
    lines.row = 6;
    let mut act = ActionHandler::new(t, String::from("doc"));
    assert!(act.can_new_line(&lines));
    let s = act.new_line(&mut lines, false);
    assert_eq!(lines.row, 7);
    assert_eq!(lines.top_row, 7);
    assert_eq!(texts(&lines)[6], "");
    let expected = redraw(&t, false)
        + &row_text(7, 1, "", 0, 8) + "\n"
        + &row_text(8, 1, "7", 1, 8) + "\n"
        + &row_text(9, 1, "8", 1, 8)
        + &home()
        + &row_text(7, 1, "", 0, 6)
        + &row_text(7, 1, "", 0, 6);
    assert_eq!(s, expected);
}

#[test]
fn delete_removes_char_before_cursor() {
    let mut lines = loaded("abc");
    let mut act = ActionHandler::new(term(), String::from("doc"));
    assert!(act.can_delete_on(&lines));
    let s = act.delete(&mut lines, false);
    assert_eq!(texts(&lines), vec!["ab"]);
    assert_eq!(s, row_text(1, 1, "ab", 2, 6));
}

#[test]
fn delete_at_start_of_first_line_does_nothing() {
    let mut lines = loaded("abc");
    lines.reset_line_pos();
    let mut act = ActionHandler::new(term(), String::from("doc"));
    let s = act.delete(&mut lines, false);
    assert_eq!(s, "");
    assert_eq!(texts(&lines), vec!["abc"]);
}

#[test]
fn delete_undoes_new_line() {
    let mut lines = loaded("one\ntwo words\nthree");
    lines.row = 2;
    lines.set_pos_relative(6, true);
    let before_texts = texts(&lines);
    let before_pos = positions(&lines);
    let before_join = lines.join();
    let mut act = ActionHandler::new(term(), String::from("doc"));
    let _ = act.new_line(&mut lines, false);
    assert_eq!(texts(&lines), vec!["one", "two", " words", "three"]);
    assert!(act.can_delete_on(&lines));
    let _ = act.delete(&mut lines, false);
    assert_eq!(texts(&lines), before_texts);
    assert_eq!(positions(&lines), before_pos);
    assert_eq!(lines.row, 2);
    assert_eq!(lines.join(), before_join);
}

#[test]
fn delete_joins_line_into_the_line_above_at_its_cursor() {
    let mut lines = loaded("abcd\nxy");
    lines.row = 1;
    lines.set_pos_relative(2, true);
    lines.row = 2;
    lines.reset_line_pos();
    let t = term();
    let mut act = ActionHandler::new(t, String::from("doc"));
    let s = act.delete(&mut lines, false);
    assert_eq!(texts(&lines), vec!["abxycd"]);
    assert_eq!(positions(&lines), vec![2]);
    assert_eq!(lines.row, 1);
    let expected = redraw(&t, false)
        + &row_text(1, 1, "abxycd", 2, 8)
        + &home()
        + &row_text(1, 1, "abxycd", 2, 6);
    assert_eq!(s, expected);
}

#[test]
fn typing_and_breaks_show_in_the_saved_text() {
    let mut lines = loaded("ab\ncd");
    lines.row = 2;
    lines.set_pos_relative(1, true);
    let mut act = ActionHandler::new(term(), String::from("doc"));
    let _ = act.add_char(&mut lines, 'X');
    assert_eq!(lines.join(), "ab\ncXd");
    let _ = act.new_line(&mut lines, false);
    assert_eq!(lines.join(), "ab\ncX\nd");
    let _ = act.delete(&mut lines, false);
    assert_eq!(lines.join(), "ab\ncXd");
    let _ = act.delete(&mut lines, false);
    assert_eq!(lines.join(), "ab\ncd");
}

#[test]
fn add_char_is_refused_inside_a_wide_character() {
    let mut lines = loaded("é");
    lines.set_pos_relative(1, true);
    let act = ActionHandler::new(term(), String::from("doc"));
    assert!(!act.can_add(&lines, 'x'));
    lines.set_pos_relative(1, true);
    assert!(act.can_add(&lines, 'x'));
}

#[test]
fn add_char_after_a_wide_character_counts_bytes() {
    let mut lines = loaded("é");
    let mut act = ActionHandler::new(term(), String::from("doc"));
    assert!(act.can_add(&lines, 'x'));
    let s = act.add_char(&mut lines, 'x');
    assert_eq!(texts(&lines), vec!["éx"]);
    assert_eq!(lines.current_pos(), 3);
    assert_eq!(s, row_text(1, 1, "éx", 3, 6));
}

#[test]
fn new_line_is_refused_when_the_rest_of_the_line_is_not_ascii() {
    let mut lines = loaded("aé");
    let act = ActionHandler::new(term(), String::from("doc"));
    assert!(act.can_new_line(&lines));
    lines.set_pos_relative(2, true);
    assert!(!act.can_new_line(&lines));
    lines.reset_line_pos();
    assert!(!act.can_new_line(&lines));
}

#[test]
fn new_line_keeps_the_wide_text_before_the_cursor() {
    let mut lines = loaded("éab");
    lines.set_pos_relative(2, true);
    let mut act = ActionHandler::new(term(), String::from("doc"));
    assert!(act.can_new_line(&lines));
    let _ = act.new_line(&mut lines, false);
    assert_eq!(texts(&lines), vec!["é", "ab"]);
    assert_eq!(positions(&lines), vec![2, 0]);
    assert_eq!(lines.join(), "é\nab");
}

#[test]
fn delete_removes_a_wide_character_whole() {
    let mut lines = loaded("aéb");
    lines.set_pos_relative(2, true);
    let mut act = ActionHandler::new(term(), String::from("doc"));
    assert_eq!(lines.current_pos(), 2);
    assert!(act.can_delete_on(&lines));
    let _ = act.delete(&mut lines, false);
    assert_eq!(texts(&lines), vec!["ab"]);
    assert_eq!(lines.current_pos(), 1);
}

#[test]
fn delete_is_refused_inside_a_wide_character() {
    let mut lines = loaded("éb");
    let act = ActionHandler::new(term(), String::from("doc"));
    assert_eq!(lines.current_pos(), 3);
    assert!(act.can_delete_on(&lines));
    lines.set_pos_relative(1, true);
    assert!(!act.can_delete_on(&lines));
}

#[test]
fn delete_at_line_start_is_refused_for_a_wide_line() {
    let mut lines = loaded("ab\né");
    lines.row = 2;
    lines.reset_line_pos();
    let act = ActionHandler::new(term(), String::from("doc"));
    assert!(!act.can_delete_on(&lines));
}

#[test]
fn delete_after_new_line_gives_the_lines_back() {
    let mut lines = loaded("héllo\nworld");
    lines.row = 1;
    lines.set_pos_relative(3, true);
    let before_texts = texts(&lines);
    let before_positions = positions(&lines);
    let mut act = ActionHandler::new(term(), String::from("doc"));
    assert!(act.can_new_line(&lines));
    let _ = act.new_line(&mut lines, false);
    assert_eq!(texts(&lines), vec!["hé", "llo", "world"]);
    assert!(act.can_delete_on(&lines));
    let _ = act.delete(&mut lines, false);
    assert_eq!(texts(&lines), before_texts);
    assert_eq!(positions(&lines), before_positions);
    assert_eq!(lines.row, 1);
}

#[test]
fn move_to_end_counts_bytes() {
    let mut lines = loaded("héllo");
    lines.reset_line_pos();
    let mut mv = MovementHandler::new(term(), String::from("doc"));
    assert!(mv.can_handle_move_to_end(&lines));
    let s = mv.handle_move_to_end(&mut lines);
    assert_eq!(lines.current_pos(), 6);
    assert_eq!(s, row_text(1, 1, "héllo", 6, 6));
}

#[test]
fn terminal_from_window_leaves_four_rows_for_the_frame() {
    let t = Terminal::from_window(24, 80);
    assert_eq!(t.row_sz, 20);
    assert_eq!(t.col_sz, 80);
}
