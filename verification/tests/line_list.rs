use tindy::line::list::LineList;
use tindy::line::Line;
use tindy::terminal::Terminal;

fn loaded(text: &str) -> LineList {
    let mut lines = LineList::new();
    lines.load_from_file(Some(text));
    lines
}

fn texts(lines: &LineList) -> Vec<String> {
    lines.e.iter().map(|l| l.chars().iter().collect()).collect()
}

#[test]
fn line_new_puts_cursor_at_end() {
    let line = Line::new(String::from("hello"));
    assert_eq!(line.len(), 5);
    assert_eq!(line.pos(), 5);
    let empty = Line::new_empty();
    assert_eq!(empty.len(), 0);
    assert_eq!(empty.pos(), 0);
}

#[test]
fn line_add_inserts_at_cursor() {
    let mut line = Line::new(String::from("ac"));
    line.set_pos(1);
    line.add('b');
    assert_eq!(line.chars().iter().collect::<String>(), "abc");
    assert_eq!(line.pos(), 2);
}

#[test]
fn line_remove_deletes_before_cursor() {
    let mut line = Line::new(String::from("abc"));
    line.set_pos(2);
    line.remove();
    assert_eq!(line.chars().iter().collect::<String>(), "ac");
    assert_eq!(line.pos(), 1);
}

#[test]
fn line_remove_undoes_add() {
    let mut line = Line::new(String::from("xyz"));
    line.set_pos(1);
    line.add('q');
    line.remove();
    assert_eq!(line.chars().iter().collect::<String>(), "xyz");
    assert_eq!(line.pos(), 1);
}

#[test]
fn new_list_is_empty_on_row_one() {
    let lines = LineList::new();
    assert_eq!(lines.line_count(), 0);
    assert_eq!(lines.row, 1);
    assert_eq!(lines.top_row, 1);
    assert_eq!(lines.join(), "");
}

#[test]
fn load_splits_lines_and_trims_the_end() {
    let lines = loaded("first\nsecond\n\nfourth \n\t \n");
    assert_eq!(texts(&lines), vec!["first", "second", "", "fourth"]);
    assert_eq!(lines.e[0].pos(), 5);
    assert_eq!(lines.e[2].pos(), 0);
}

#[test]
fn load_of_missing_file_gives_one_empty_line() {
    let mut lines = LineList::new();
    lines.load_from_file(None);
    assert_eq!(lines.line_count(), 1);
    assert_eq!(lines.line_length(), 0);
    assert_eq!(lines.current_pos(), 0);
}

#[test]
fn load_of_blank_file_gives_one_empty_line() {
    let lines = loaded("  \n\n");
    assert_eq!(texts(&lines), vec![""]);
}

#[test]
fn load_then_join_gives_trimmed_text() {
    let text = "a\n\nb c\n  d\n\n\n";
    let lines = loaded(text);
    assert_eq!(lines.join(), text.trim_end());
}

#[test]
fn load_counts_bytes() {
    let lines = loaded("héllo");
    assert_eq!(lines.line_length(), 6);
    assert_eq!(lines.current_pos(), 6);
    assert_eq!(lines.join(), "héllo");
}

#[test]
fn line_new_counts_bytes() {
    let line = Line::new(String::from("é"));
    assert_eq!(line.len(), 2);
    assert_eq!(line.pos(), 2);
}

#[test]
fn line_add_after_a_wide_character() {
    let mut line = Line::new(String::from("é"));
    line.add('x');
    assert_eq!(line.chars().iter().collect::<String>(), "éx");
    assert_eq!(line.pos(), 3);
    assert_eq!(line.len(), 3);
}

#[test]
fn line_add_of_a_wide_character_moves_one_byte() {
    let mut line = Line::new(String::from("ab"));
    line.set_pos(1);
    line.add('é');
    assert_eq!(line.chars().iter().collect::<String>(), "aéb");
    assert_eq!(line.pos(), 2);
    assert_eq!(line.len(), 4);
}

#[test]
fn line_remove_takes_the_whole_character_at_the_byte_before() {
    let mut line = Line::new(String::from("aé"));
    line.set_pos(2);
    line.remove();
    assert_eq!(line.chars().iter().collect::<String>(), "a");
    assert_eq!(line.pos(), 1);
    assert_eq!(line.len(), 1);
}

#[test]
fn remove_chunk_counts_bytes() {
    let mut lines = loaded("héllo wörld");
    let chunk = lines.remove_chunk(3, 7);
    assert_eq!(chunk, "llo ");
    assert_eq!(texts(&lines), vec!["héwörld"]);
    assert_eq!(lines.current_pos(), 3);
    assert_eq!(lines.line_length(), 9);
}

#[test]
fn print_line_puts_the_cursor_on_its_byte_column() {
    let lines = loaded("é");
    assert_eq!(lines.print_line(6), "\r\x1b[3C\r\x1b[3C\x1b[1;35m1\x1b[0m é\r\x1b[8G");
}

#[test]
fn join_puts_newlines_between_lines() {
    let mut lines = LineList::new();
    lines.new_line(Line::new(String::from("one")));
    lines.new_line(Line::new_empty());
    lines.new_line(Line::new(String::from("three")));
    assert_eq!(lines.join(), "one\n\nthree");
}

#[test]
fn insert_and_remove_line() {
    let mut lines = loaded("a\nc");
    lines.insert_line(1, Line::new(String::from("b")));
    assert_eq!(texts(&lines), vec!["a", "b", "c"]);
    lines.row = 2;
    lines.remove_line();
    assert_eq!(texts(&lines), vec!["a", "c"]);
    assert_eq!(lines.row, 2);
}

#[test]
fn add_and_remove_on_cursor_line() {
    let mut lines = loaded("ac\nzz");
    lines.set_pos_relative(1, true);
    lines.add('b');
    assert_eq!(texts(&lines), vec!["abc", "zz"]);
    assert_eq!(lines.current_pos(), 2);
    lines.remove();
    lines.remove();
    assert_eq!(texts(&lines), vec!["c", "zz"]);
    assert_eq!(lines.current_pos(), 0);
}

#[test]
fn set_pos_relative_and_reset() {
    let mut lines = loaded("abcdef");
    lines.set_pos_relative(4, true);
    assert_eq!(lines.current_pos(), 2);
    lines.set_pos_relative(3, false);
    assert_eq!(lines.current_pos(), 5);
    lines.reset_line_pos();
    assert_eq!(lines.current_pos(), 0);
}

#[test]
fn remove_chunk_cuts_and_returns_the_piece() {
    let mut lines = loaded("hello world");
    let chunk = lines.remove_chunk(2, 7);
    assert_eq!(chunk, "llo w");
    assert_eq!(texts(&lines), vec!["heorld"]);
    assert_eq!(lines.current_pos(), 2);
}

#[test]
fn remove_chunk_of_nothing() {
    let mut lines = loaded("abc");
    let chunk = lines.remove_chunk(3, 3);
    assert_eq!(chunk, "");
    assert_eq!(texts(&lines), vec!["abc"]);
    assert_eq!(lines.current_pos(), 3);
}

#[test]
fn add_chars_inserts_all_at_cursor() {
    let mut lines = loaded("ad");
    lines.set_pos_relative(1, true);
    lines.add_chars(&vec!['b', 'c']);
    assert_eq!(texts(&lines), vec!["abcd"]);
    assert_eq!(lines.current_pos(), 3);
}

#[test]
fn print_line_draws_row_number_text_and_cursor() {
    let lines = loaded("ab\ncd");
    let s = lines.print_line(10);
    assert_eq!(s, "\r\x1b[3C    \r\x1b[3C\x1b[1;35m1\x1b[0m ab\r\x1b[8G");
}

#[test]
fn print_line_pads_row_number_to_widest() {
    let text: Vec<String> = (1..=12).map(|i| format!("l{}", i)).collect();
    let mut lines = loaded(&text.join("\n"));
    lines.row = 3;
    lines.set_pos_relative(1, true);
    let s = lines.print_line(6);
    assert_eq!(s, "\r\x1b[3C\r\x1b[3C \x1b[1;35m3\x1b[0m l3\r\x1b[8G");
}

#[test]
fn print_line_bare_draws_compact_line() {
    let mut lines = loaded("x\nhello");
    lines.row = 2;
    lines.set_pos_relative(2, true);
    assert_eq!(lines.print_line_bare(), "\x1b[2K\r2 hello\r\x1b[6G");
}

#[test]
fn print_all_draws_a_screenful_and_moves_the_cursor() {
    let mut lines = loaded("a\nb\nc\nd");
    let term = Terminal::new(3, 6);
    let s = lines.print_all(&term);
    let expected = String::from("\r\x1b[3C\r\x1b[3C\x1b[1;35m1\x1b[0m a\r\x1b[7G\n")
        + "\r\x1b[3C\r\x1b[3C\x1b[1;35m2\x1b[0m b\r\x1b[7G\n"
        + "\r\x1b[3C\r\x1b[3C\x1b[1;35m3\x1b[0m c\r\x1b[7G";
    assert_eq!(s, expected);
    assert_eq!(lines.row, 3);
}

#[test]
fn print_all_stops_at_the_last_line() {
    let mut lines = loaded("a\nb");
    lines.row = 2;
    let term = Terminal::new(5, 6);
    let s = lines.print_all(&term);
    assert_eq!(s, "\r\x1b[3C\r\x1b[3C\x1b[1;35m2\x1b[0m b\r\x1b[7G");
    assert_eq!(lines.row, 2);
}

#[test]
fn print_all_from_top_keeps_the_cursor_row() {
    let mut lines = loaded("a\nb\nc");
    lines.row = 3;
    let term = Terminal::new(2, 6);
    let s = lines.print_all_from_top(&term);
    let expected = String::from("\r\x1b[3C\r\x1b[3C\x1b[1;35m1\x1b[0m a\r\x1b[7G\n")
        + "\r\x1b[3C\r\x1b[3C\x1b[1;35m2\x1b[0m b\r\x1b[7G";
    assert_eq!(s, expected);
    assert_eq!(lines.row, 3);
}

#[test]
fn columns_and_fit_checks() {
    let lines = loaded("abc\nd");
    let cols = lines.columns();
    assert_eq!(cols, vec![3, 1]);
    assert!(tindy::line::list::col_fits_exec(&cols, 0));
    assert!(!tindy::line::list::col_fits_exec(&vec![usize::MAX - 3], 0));
    let term = Terminal::new(3, 6);
    assert!(tindy::line::list::cols_can_print_all_exec(&cols, 1, &term));
    assert!(!tindy::line::list::cols_can_print_all_exec(&cols, 3, &term));
    assert!(!tindy::line::list::cols_can_print_all_exec(&cols, 1, &Terminal::new(3, 5)));
    assert!(!tindy::line::list::cols_can_print_all_exec(&cols, 1, &Terminal::new(0, 6)));
    assert_eq!(tindy::line::list::lines_before_last_exec(10, 2, 4), 3);
    assert_eq!(tindy::line::list::lines_before_last_exec(10, 9, 4), 1);
    assert_eq!(tindy::line::list::lines_before_last_exec(10, 10, 0), 0);
}

#[test]
fn remove_undoes_add_of_a_wide_character() {
    let mut lines = loaded("ab\ncd");
    lines.row = 1;
    lines.set_pos_relative(1, true);
    lines.add('é');
    assert_eq!(texts(&lines), vec!["aéb", "cd"]);
    assert_eq!(lines.current_pos(), 2);
    lines.remove();
    assert_eq!(texts(&lines), vec!["ab", "cd"]);
    assert_eq!(lines.current_pos(), 1);
    assert_eq!(lines.row, 1);
}
