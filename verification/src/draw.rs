//! Drawing the screen: clearing it and the coloured frame around the text.

use vstd::prelude::*;
use crate::terminal::Terminal;
use crate::text::{chars_of, decimal, push_decimal, push_repeat, push_spaces, push_str, repeat, spaces, string_from_chars};

verus! {

/// The escape sequence that clears the screen.
pub open spec fn clear_display() -> Seq<char> {
    "\x1b[2J"@
}

/// The escape sequence that clears the screen.
pub fn clear() -> (s: String)
    ensures
        s@ == clear_display(),
{
    string_from_chars(&chars_of("\x1b[2J"))
}

/// The colours of the frame: white on blue while typing, blue on white in move mode.
pub open spec fn frame_color(move_mode: bool) -> Seq<char> {
    if move_mode {
        "\x1b[1;34;47m"@
    } else {
        "\x1b[1;37;44m"@
    }
}

/// What `frame` draws: a bar across the top and bottom of the screen and two
/// columns down each side, in the mode's colours, and the title in the top bar.
pub open spec fn frame_display(term: Terminal, move_mode: bool, title: Seq<char>) -> Seq<char> {
    "\x1b[H"@ + frame_color(move_mode) + spaces(term.col_sz as nat) + repeat(
        "\x1b[2D\x1b[1B  "@,
        (term.row_sz + 2) as nat,
    ) + "\x1b[H\x1b["@ + decimal((term.col_sz - 1) as nat) + "B"@ + spaces(term.col_sz as nat)
        + "\x1b[H"@ + repeat("\x1b[1B  \x1b[2D"@, (term.row_sz + 2) as nat)
        + "\x1b[H  Tindy - "@ + title + "\x1b[0m"@
}

/// Draws the frame around the text area, titled with `title` (the name the
/// editor was started with).
pub fn frame(term: &Terminal, move_mode: bool, title: &str) -> (s: String)
    requires
        term.col_sz >= 1,
        term.row_sz + 2 <= usize::MAX,
    ensures
        s@ == frame_display(*term, move_mode, title@),
{
    let mut out: Vec<char> = Vec::new();
    push_str(&mut out, "\x1b[H");
    if move_mode {
        push_str(&mut out, "\x1b[1;34;47m");
    } else {
        push_str(&mut out, "\x1b[1;37;44m");
    }
    push_spaces(&mut out, term.col_sz);
    push_repeat(&mut out, "\x1b[2D\x1b[1B  ", term.row_sz + 2);
    push_str(&mut out, "\x1b[H\x1b[");
    push_decimal(&mut out, term.col_sz - 1);
    push_str(&mut out, "B");
    push_spaces(&mut out, term.col_sz);
    push_str(&mut out, "\x1b[H");
    push_repeat(&mut out, "\x1b[1B  \x1b[2D", term.row_sz + 2);
    push_str(&mut out, "\x1b[H  Tindy - ");
    push_str(&mut out, title);
    push_str(&mut out, "\x1b[0m");
    assert(out@ =~= frame_display(*term, move_mode, title@));
    string_from_chars(&out)
}

} // verus!
