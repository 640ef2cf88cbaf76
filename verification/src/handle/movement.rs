//! Moving the cursor: up and down by rows, paging the screen at its edges,
//! and left and right within a line.

use vstd::prelude::*;
use crate::cursor::{home, home_display};
use crate::draw::{clear, frame};
use crate::handle::{can_frame, frame_fits, redraw_display};
use crate::line::LineView;
use crate::line::list::{
    all_display, can_print_all, col_fits_exec, cols_can_print_all_exec, nat_cols, column_fits, line_display,
    lines_before_last, LineList,
};
use crate::terminal::Terminal;
use crate::text::{decimal, decimal_len, push_str, string_from_chars};

verus! {

/// What `handle_up` needs to move the cursor without failing.
pub open spec fn can_move_up(term: Terminal, lines: LineList) -> bool {
    &&& lines.row == lines.top_row && lines.row != 1 ==> {
        &&& can_frame(term)
        &&& term.row_sz <= lines.top_row
        &&& can_print_all(lines@, (lines.top_row - term.row_sz) as nat, term)
    }
    &&& lines.row != lines.top_row && lines.row != 1 ==> {
        &&& 2 <= lines.row <= lines@.len() + 1
        &&& term.row_sz >= 6
        &&& column_fits(lines@, lines.row - 2)
    }
}

/// What `handle_down` needs to move the cursor without failing.
pub open spec fn can_move_down(term: Terminal, lines: LineList) -> bool {
    &&& 1 <= lines.top_row + term.row_sz <= usize::MAX
    &&& lines.row == lines.top_row + term.row_sz - 1 ==> {
        &&& can_frame(term)
        &&& term.row_sz >= 6
        &&& can_print_all(lines@, (lines.row + 1) as nat, term)
    }
    &&& lines.row != lines.top_row + term.row_sz - 1 && lines.row != lines@.len() ==> {
        &&& lines.row < lines@.len()
        &&& term.row_sz >= 6
        &&& column_fits(lines@, lines.row as int)
    }
}

/// What `handle_right` needs to move the cursor without failing.
pub open spec fn can_move_right(term: Terminal, lines: LineList) -> bool {
    &&& lines.row_ok()
    &&& lines.cur().pos != lines.cur().size() ==> {
        &&& term.row_sz >= 6
        &&& lines.cur().pos + 1 + decimal(lines@.len()).len() + 5 <= usize::MAX
    }
}

/// What `handle_left` needs to move the cursor without failing.
pub open spec fn can_move_left(term: Terminal, lines: LineList) -> bool {
    &&& lines.row_ok()
    &&& lines.cur().pos != 0 ==> {
        &&& term.row_sz >= 6
        &&& lines.cur().pos - 1 + decimal(lines@.len()).len() + 5 <= usize::MAX
    }
}

/// What `handle_move_to_start` needs to move the cursor without failing.
pub open spec fn can_move_to_start(term: Terminal, lines: LineList) -> bool {
    &&& lines.row_ok()
    &&& term.row_sz >= 6
    &&& decimal(lines@.len()).len() + 5 <= usize::MAX
}

/// What `handle_move_to_end` needs to move the cursor without failing.
pub open spec fn can_move_to_end(term: Terminal, lines: LineList) -> bool {
    &&& lines.row_ok()
    &&& term.row_sz >= 6
    &&& lines.cur().size() + decimal(lines@.len()).len() + 5 <= usize::MAX
}

/// Moves the cursor through the document; what it draws is returned for the
/// caller to write to the terminal.
pub struct MovementHandler {
    pub term: Terminal,
    pub title: String,
}

/// Appends the characters of `s` to `out`.
fn push_string(out: &mut Vec<char>, s: &String)
    ensures
        final(out)@ == old(out)@ + s@,
{
    push_str(out, s.as_str());
}

impl MovementHandler {
    /// A handler for a terminal of size `term`, whose frame is titled `title`.
    pub fn new(term: Terminal, title: String) -> (h: MovementHandler)
        ensures
            h.term == term,
            h.title@ == title@,
    {
        MovementHandler { term, title }
    }

    /// The cursor one row up. On the first row shown (but not the first row),
    /// the screen pages up by its height and is redrawn from the new first row,
    /// which leaves the cursor on the last row drawn; on row 1 nothing happens.
    pub fn handle_up(&mut self, lines: &mut LineList, move_mode: bool) -> (s: String)
        requires
            can_move_up(old(self).term, *old(lines)),
        ensures
            old(lines).well_placed() ==> final(lines).well_placed(),
            *final(self) == *old(self),
            final(lines)@ == old(lines)@,
            if old(lines).row == old(lines).top_row && old(lines).row != 1 {
                let top = (old(lines).top_row - old(self).term.row_sz) as nat;
                &&& final(lines).top_row == top
                &&& final(lines).row == top + lines_before_last(
                    old(lines)@.len(),
                    top,
                    old(self).term.row_sz as nat,
                )
                &&& s@ == redraw_display(old(self).term, move_mode, old(self).title@)
                    + all_display(old(lines)@, top, old(self).term)
            } else if old(lines).row != 1 {
                &&& final(lines).top_row == old(lines).top_row
                &&& final(lines).row == old(lines).row - 1
                &&& s@ == "\x1b[1F"@ + line_display(
                    old(lines)@,
                    (old(lines).row - 1) as nat,
                    old(self).term.row_sz as nat,
                )
            } else {
                &&& final(lines).top_row == old(lines).top_row
                &&& final(lines).row == old(lines).row
                &&& s@ == Seq::<char>::empty()
            },
    {
        let mut out: Vec<char> = Vec::new();
        if lines.row == lines.top_row && lines.row != 1 {
            push_string(&mut out, &clear());
            push_string(&mut out, &frame(&self.term, move_mode, self.title.as_str()));
            push_string(&mut out, &home());
            lines.top_row = lines.top_row - self.term.row_sz;
            lines.row = lines.top_row;
            lines.render_all(&self.term, &mut out);
        } else {
            if lines.row != 1 {
                lines.row = lines.row - 1;
                push_str(&mut out, "\x1b[1F");
                lines.render_line(self.term.row_sz, &mut out);
            }
        }
        string_from_chars(&out)
    }

    /// The cursor one row down. On the last row the screen holds, the screen
    /// pages down to start at the next row and is redrawn; elsewhere the cursor
    /// moves down unless it is on the last line.
    pub fn handle_down(&mut self, lines: &mut LineList, move_mode: bool) -> (s: String)
        requires
            can_move_down(old(self).term, *old(lines)),
        ensures
            old(lines).well_placed() ==> final(lines).well_placed(),
            *final(self) == *old(self),
            final(lines)@ == old(lines)@,
            if old(lines).row == old(lines).top_row + old(self).term.row_sz - 1 {
                let next = (old(lines).row + 1) as nat;
                &&& final(lines).top_row == next
                &&& final(lines).row == next
                &&& s@ == redraw_display(old(self).term, move_mode, old(self).title@)
                    + all_display(old(lines)@, next, old(self).term) + home_display()
                    + line_display(old(lines)@, next, old(self).term.row_sz as nat)
            } else if old(lines).row != old(lines)@.len() {
                &&& final(lines).top_row == old(lines).top_row
                &&& final(lines).row == old(lines).row + 1
                &&& s@ == "\x1b[1E"@ + line_display(
                    old(lines)@,
                    (old(lines).row + 1) as nat,
                    old(self).term.row_sz as nat,
                )
            } else {
                &&& final(lines).top_row == old(lines).top_row
                &&& final(lines).row == old(lines).row
                &&& s@ == Seq::<char>::empty()
            },
    {
        let mut out: Vec<char> = Vec::new();
        if lines.row == lines.top_row + self.term.row_sz - 1 {
            push_string(&mut out, &clear());
            push_string(&mut out, &frame(&self.term, move_mode, self.title.as_str()));
            push_string(&mut out, &home());
            lines.row = lines.row + 1;
            lines.top_row = lines.row;
            lines.render_all(&self.term, &mut out);
            push_string(&mut out, &home());
            lines.row = lines.top_row;
            lines.render_line(self.term.row_sz, &mut out);
        } else {
            if lines.line_count() != lines.row {
                lines.row = lines.row + 1;
                push_str(&mut out, "\x1b[1E");
                lines.render_line(self.term.row_sz, &mut out);
            }
        }
        string_from_chars(&out)
    }

    /// The cursor one byte right, unless it is at the end of its line.
    pub fn handle_right(&mut self, lines: &mut LineList) -> (s: String)
        requires
            can_move_right(old(self).term, *old(lines)),
        ensures
            old(lines).well_placed() ==> final(lines).well_placed(),
            *final(self) == *old(self),
            final(lines).row == old(lines).row,
            final(lines).top_row == old(lines).top_row,
            if old(lines).cur().pos != old(lines).cur().size() {
                &&& final(lines)@ == old(lines)@.update(
                    old(lines).row - 1,
                    LineView { text: old(lines).cur().text, pos: old(lines).cur().pos + 1 },
                )
                &&& s@ == line_display(final(lines)@, old(lines).row as nat, old(self).term.row_sz as nat)
            } else {
                &&& final(lines)@ == old(lines)@
                &&& s@ == Seq::<char>::empty()
            },
    {
        let mut out: Vec<char> = Vec::new();
        if lines.current_pos() != lines.line_length() {
            lines.set_pos_relative(1, false);
            lines.render_line(self.term.row_sz, &mut out);
        }
        string_from_chars(&out)
    }

    /// The cursor one byte left, unless it is at the start of its line.
    pub fn handle_left(&mut self, lines: &mut LineList) -> (s: String)
        requires
            can_move_left(old(self).term, *old(lines)),
        ensures
            old(lines).well_placed() ==> final(lines).well_placed(),
            *final(self) == *old(self),
            final(lines).row == old(lines).row,
            final(lines).top_row == old(lines).top_row,
            if old(lines).cur().pos != 0 {
                &&& final(lines)@ == old(lines)@.update(
                    old(lines).row - 1,
                    LineView { text: old(lines).cur().text, pos: (old(lines).cur().pos - 1) as nat },
                )
                &&& s@ == line_display(final(lines)@, old(lines).row as nat, old(self).term.row_sz as nat)
            } else {
                &&& final(lines)@ == old(lines)@
                &&& s@ == Seq::<char>::empty()
            },
    {
        let mut out: Vec<char> = Vec::new();
        if lines.current_pos() != 0 {
            lines.set_pos_relative(1, true);
            lines.render_line(self.term.row_sz, &mut out);
        }
        string_from_chars(&out)
    }

    /// The cursor to the start of its line.
    pub fn handle_move_to_start(&mut self, lines: &mut LineList) -> (s: String)
        requires
            can_move_to_start(old(self).term, *old(lines)),
        ensures
            old(lines).well_placed() ==> final(lines).well_placed(),
            *final(self) == *old(self),
            final(lines).row == old(lines).row,
            final(lines).top_row == old(lines).top_row,
            final(lines)@ == old(lines)@.update(
                old(lines).row - 1,
                LineView { text: old(lines).cur().text, pos: 0 },
            ),
            s@ == line_display(final(lines)@, old(lines).row as nat, old(self).term.row_sz as nat),
    {
        let mut out: Vec<char> = Vec::new();
        lines.reset_line_pos();
        lines.render_line(self.term.row_sz, &mut out);
        string_from_chars(&out)
    }

    /// The cursor to the end of its line.
    pub fn handle_move_to_end(&mut self, lines: &mut LineList) -> (s: String)
        requires
            can_move_to_end(old(self).term, *old(lines)),
        ensures
            old(lines).well_placed() ==> final(lines).well_placed(),
            *final(self) == *old(self),
            final(lines).row == old(lines).row,
            final(lines).top_row == old(lines).top_row,
            final(lines)@ == old(lines)@.update(
                old(lines).row - 1,
                LineView { text: old(lines).cur().text, pos: old(lines).cur().size() },
            ),
            s@ == line_display(final(lines)@, old(lines).row as nat, old(self).term.row_sz as nat),
    {
        let mut out: Vec<char> = Vec::new();
        let len = lines.line_length();
        lines.reset_line_pos();
        lines.set_pos_relative(len, false);
        lines.render_line(self.term.row_sz, &mut out);
        string_from_chars(&out)
    }

    /// Whether `handle_up` can run on `lines`.
    pub fn can_handle_up(&self, lines: &LineList) -> (b: bool)
        ensures
            b == can_move_up(self.term, *lines),
    {
        let cols = lines.columns();
        let term = &self.term;
        if lines.row == lines.top_row && lines.row != 1 {
            frame_fits(term) && term.row_sz <= lines.top_row && cols_can_print_all_exec(
                &cols,
                lines.top_row - term.row_sz,
                term,
            )
        } else if lines.row != lines.top_row && lines.row != 1 {
            2 <= lines.row && lines.row - 1 <= cols.len() && term.row_sz >= 6 && col_fits_exec(
                &cols,
                lines.row - 2,
            )
        } else {
            true
        }
    }

    /// Whether `handle_down` can run on `lines`.
    pub fn can_handle_down(&self, lines: &LineList) -> (b: bool)
        ensures
            b == can_move_down(self.term, *lines),
    {
        let cols = lines.columns();
        assert(nat_cols(cols@).len() == cols@.len());
        let term = &self.term;
        if lines.top_row > usize::MAX - term.row_sz || lines.top_row + term.row_sz < 1 {
            false
        } else if lines.row == lines.top_row + term.row_sz - 1 {
            frame_fits(term) && term.row_sz >= 6 && lines.row < usize::MAX
                && cols_can_print_all_exec(&cols, lines.row + 1, term)
        } else if lines.row != cols.len() {
            lines.row < cols.len() && term.row_sz >= 6 && col_fits_exec(&cols, lines.row)
        } else {
            true
        }
    }

    /// Whether `handle_right` can run on `lines`.
    pub fn can_handle_right(&self, lines: &LineList) -> (b: bool)
        ensures
            b == can_move_right(self.term, *lines),
    {
        if !(1 <= lines.row && lines.row <= lines.line_count()) {
            return false;
        }
        let pos = lines.current_pos();
        if pos == lines.line_length() {
            return true;
        }
        let digits = decimal_len(lines.line_count());
        self.term.row_sz >= 6 && pos <= usize::MAX - 6 - digits
    }

    /// Whether `handle_left` can run on `lines`.
    pub fn can_handle_left(&self, lines: &LineList) -> (b: bool)
        ensures
            b == can_move_left(self.term, *lines),
    {
        if !(1 <= lines.row && lines.row <= lines.line_count()) {
            return false;
        }
        let pos = lines.current_pos();
        if pos == 0 {
            return true;
        }
        let digits = decimal_len(lines.line_count());
        self.term.row_sz >= 6 && pos - 1 <= usize::MAX - 5 - digits
    }

    /// Whether `handle_move_to_start` can run on `lines`.
    pub fn can_handle_move_to_start(&self, lines: &LineList) -> (b: bool)
        ensures
            b == can_move_to_start(self.term, *lines),
    {
        if !(1 <= lines.row && lines.row <= lines.line_count()) {
            return false;
        }
        let digits = decimal_len(lines.line_count());
        self.term.row_sz >= 6 && digits <= usize::MAX - 5
    }

    /// Whether `handle_move_to_end` can run on `lines`.
    pub fn can_handle_move_to_end(&self, lines: &LineList) -> (b: bool)
        ensures
            b == can_move_to_end(self.term, *lines),
    {
        if !(1 <= lines.row && lines.row <= lines.line_count()) {
            return false;
        }
        let digits = decimal_len(lines.line_count());
        self.term.row_sz >= 6 && lines.line_length() <= usize::MAX - 5 - digits
    }
}

} // verus!
