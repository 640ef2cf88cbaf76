//! The mode that moves the cursor: `h`, `j`, `k`, `l` move it and stay in the
//! mode, the arrow letters `D`, `B`, `A`, `C` move it and go back to inserting,
//! `i` goes back to inserting and `q` quits.

use vstd::prelude::*;
use super::Mode;
use crate::line::LineView;
use crate::line::list::{bare_column_fits, bare_line_display, LineList};
use crate::text::{decimal_len, push_str, string_from_chars};

verus! {

/// What `handle_escape` needs to handle key `c` without failing.
pub open spec fn can_escape(lines: LineList, c: char) -> bool {
    &&& (c == 'A' || c == 'k') && lines.row != 1 ==> {
        &&& 2 <= lines.row <= lines@.len() + 1
        &&& bare_column_fits(lines@, (lines.row - 1) as nat)
    }
    &&& (c == 'B' || c == 'j') && lines.row != lines@.len() ==> {
        &&& lines.row < lines@.len()
        &&& bare_column_fits(lines@, (lines.row + 1) as nat)
    }
    &&& c == 'C' || c == 'l' || c == 'D' || c == 'h' ==> lines.row_ok()
    &&& (c == 'C' || c == 'l') && lines.row_ok() && lines.cur().pos != lines.cur().size()
        ==> {
        &&& lines.cur().pos < usize::MAX
        &&& bare_column_fits(
            lines@.update(
                lines.row - 1,
                LineView { text: lines.cur().text, pos: lines.cur().pos + 1 },
            ),
            lines.row as nat,
        )
    }
    &&& (c == 'D' || c == 'h') && lines.row_ok() && lines.cur().pos != 0 ==> bare_column_fits(
        lines@.update(
            lines.row - 1,
            LineView { text: lines.cur().text, pos: (lines.cur().pos - 1) as nat },
        ),
        lines.row as nat,
    )
}

/// Handles key `c` in the moving mode. Returns the mode to switch to, or
/// `None` to stay and read the next key, and what to draw.
pub fn handle_escape(lines: &mut LineList, c: char) -> (res: (Option<Mode>, String))
    requires
        can_escape(*old(lines), c),
    ensures
        old(lines).well_placed() ==> final(lines).well_placed(),
        final(lines).top_row == old(lines).top_row,
        res.0 == (if c == 'q' {
            Some(Mode::Quit)
        } else if c == 'i' || c == 'A' || c == 'B' || c == 'C' || c == 'D' {
            Some(Mode::Insert)
        } else {
            None::<Mode>
        }),
        if (c == 'A' || c == 'k') && old(lines).row != 1 {
            &&& final(lines)@ == old(lines)@
            &&& final(lines).row == old(lines).row - 1
            &&& res.1@ == "\x1b[1F"@ + bare_line_display(old(lines)@, (old(lines).row - 1) as nat)
        } else if (c == 'B' || c == 'j') && old(lines).row != old(lines)@.len() {
            &&& final(lines)@ == old(lines)@
            &&& final(lines).row == old(lines).row + 1
            &&& res.1@ == "\x1b[1E"@ + bare_line_display(old(lines)@, (old(lines).row + 1) as nat)
        } else if (c == 'C' || c == 'l') && old(lines).cur().pos != old(lines).cur().size() {
            &&& final(lines)@ == old(lines)@.update(
                old(lines).row - 1,
                LineView { text: old(lines).cur().text, pos: old(lines).cur().pos + 1 },
            )
            &&& final(lines).row == old(lines).row
            &&& res.1@ == bare_line_display(final(lines)@, old(lines).row as nat)
        } else if (c == 'D' || c == 'h') && old(lines).cur().pos != 0 {
            &&& final(lines)@ == old(lines)@.update(
                old(lines).row - 1,
                LineView { text: old(lines).cur().text, pos: (old(lines).cur().pos - 1) as nat },
            )
            &&& final(lines).row == old(lines).row
            &&& res.1@ == bare_line_display(final(lines)@, old(lines).row as nat)
        } else {
            &&& final(lines)@ == old(lines)@
            &&& final(lines).row == old(lines).row
            &&& res.1@ == Seq::<char>::empty()
        },
{
    let mut out: Vec<char> = Vec::new();
    if c == 'q' {
        return (Some(Mode::Quit), string_from_chars(&out));
    }
    if c == 'i' {
        return (Some(Mode::Insert), string_from_chars(&out));
    }
    if c == 'A' || c == 'k' {
        if lines.row != 1 {
            lines.row = lines.row - 1;
            push_str(&mut out, "\x1b[1F");
            lines.render_line_bare(&mut out);
        }
        let next = if c == 'A' { Some(Mode::Insert) } else { None };
        return (next, string_from_chars(&out));
    }
    if c == 'B' || c == 'j' {
        if lines.line_count() != lines.row {
            push_str(&mut out, "\x1b[1E");
            lines.row = lines.row + 1;
            lines.render_line_bare(&mut out);
        }
        let next = if c == 'B' { Some(Mode::Insert) } else { None };
        return (next, string_from_chars(&out));
    }
    if c == 'C' || c == 'l' {
        if lines.current_pos() != lines.line_length() {
            lines.set_pos_relative(1, false);
            lines.render_line_bare(&mut out);
        }
        let next = if c == 'C' { Some(Mode::Insert) } else { None };
        return (next, string_from_chars(&out));
    }
    if c == 'D' || c == 'h' {
        if lines.current_pos() != 0 {
            lines.set_pos_relative(1, true);
            lines.render_line_bare(&mut out);
        }
        let next = if c == 'D' { Some(Mode::Insert) } else { None };
        return (next, string_from_chars(&out));
    }
    (None, string_from_chars(&out))
}

/// Whether `handle_escape` can handle key `c` on `lines`.
pub fn can_escape_key(lines: &LineList, c: char) -> (b: bool)
    ensures
        b == can_escape(*lines, c),
{
    let row = lines.row;
    let count = lines.line_count();
    if (c == 'A' || c == 'k') && row != 1 {
        if !(2 <= row && row - 1 <= count) {
            return false;
        }
        let digits = decimal_len(row - 1);
        return lines.e[row - 2].pos() <= usize::MAX - 2 - digits;
    }
    if (c == 'B' || c == 'j') && row != count {
        if !(row < count) {
            return false;
        }
        let digits = decimal_len(row + 1);
        return lines.e[row].pos() <= usize::MAX - 2 - digits;
    }
    if c == 'C' || c == 'l' || c == 'D' || c == 'h' {
        if !(1 <= row && row <= count) {
            return false;
        }
        let pos = lines.current_pos();
        let len = lines.line_length();
        let digits = decimal_len(row);
        if (c == 'C' || c == 'l') && pos != len {
            return pos < usize::MAX && pos + 1 <= usize::MAX - 2 - digits;
        }
        if (c == 'D' || c == 'h') && pos != 0 {
            return pos - 1 <= usize::MAX - 2 - digits;
        }
    }
    true
}

} // verus!
