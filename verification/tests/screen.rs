use tindy::cursor::home;
use tindy::draw::{clear, frame};
use tindy::terminal::Terminal;
use tindy::text::{chars_of, decimal_len, push_decimal, string_from_chars, trim_end_len, white_space};

#[test]
fn home_moves_to_first_text_row() {
    assert_eq!(home(), "\x1b[3;1H");
}

#[test]
fn clear_clears_the_screen() {
    assert_eq!(clear(), "\x1b[2J");
}

#[test]
fn frame_in_typing_mode() {
    let term = Terminal::new(1, 3);
    let s = frame(&term, false, "doc");
    let expected = String::from("\x1b[H\x1b[1;37;44m   ")
        + "\x1b[2D\x1b[1B  \x1b[2D\x1b[1B  \x1b[2D\x1b[1B  "
        + "\x1b[H\x1b[2B   \x1b[H"
        + "\x1b[1B  \x1b[2D\x1b[1B  \x1b[2D\x1b[1B  \x1b[2D"
        + "\x1b[H  Tindy - doc\x1b[0m";
    assert_eq!(s, expected);
}

#[test]
fn frame_in_move_mode_uses_other_colours() {
    let term = Terminal::new(0, 1);
    let s = frame(&term, true, "");
    let expected = String::from("\x1b[H\x1b[1;34;47m ")
        + "\x1b[2D\x1b[1B  \x1b[2D\x1b[1B  "
        + "\x1b[H\x1b[0B \x1b[H"
        + "\x1b[1B  \x1b[2D\x1b[1B  \x1b[2D"
        + "\x1b[H  Tindy - \x1b[0m";
    assert_eq!(s, expected);
}

#[test]
fn decimal_digits() {
    let mut out = vec!['x'];
    push_decimal(&mut out, 0);
    push_decimal(&mut out, 907);
    push_decimal(&mut out, usize::MAX);
    let s: String = out.iter().collect();
    assert_eq!(s, format!("x0907{}", usize::MAX));
    assert_eq!(decimal_len(0), 1);
    assert_eq!(decimal_len(9), 1);
    assert_eq!(decimal_len(10), 2);
    assert_eq!(decimal_len(12345), 5);
}

#[test]
fn chars_and_strings_round_trip() {
    let v = chars_of("añb");
    assert_eq!(v, vec!['a', 'ñ', 'b']);
    assert_eq!(string_from_chars(&v), "añb");
    assert_eq!(string_from_chars(&Vec::new()), "");
}

#[test]
fn white_space_is_unicode_white_space() {
    for c in ['\t', '\n', '\u{b}', '\u{c}', '\r', ' ', '\u{85}', '\u{a0}', '\u{1680}', '\u{2000}',
        '\u{200a}', '\u{2028}', '\u{2029}', '\u{202f}', '\u{205f}', '\u{3000}'] {
        assert!(white_space(c), "{:?}", c);
        assert_eq!(white_space(c), c.is_whitespace());
    }
    for c in ['a', '\u{0}', '\u{8}', '\u{e}', '\u{200b}', '\u{feff}', 'é'] {
        assert!(!white_space(c));
        assert_eq!(white_space(c), c.is_whitespace());
    }
}

#[test]
fn trim_end_cuts_trailing_white_space() {
    let v = chars_of("ab \t\n\u{3000}");
    assert_eq!(trim_end_len(&v), 2);
    assert_eq!(trim_end_len(&chars_of("   ")), 0);
    assert_eq!(trim_end_len(&chars_of("x")), 1);
}
