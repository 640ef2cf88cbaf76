//! Editing: breaking a line at the cursor, deleting backwards (joining a line
//! onto the one above at its start) and typing a character.

use vstd::prelude::*;
use crate::cursor::{home, home_display};
use crate::draw::{clear, frame};
use crate::handle::{can_frame, frame_fits, redraw_display};
use crate::line::{Line, LineView};
use crate::line::list::{
    all_display, can_print_all, col_fits_exec, cols_can_print_all_exec, column_fits,
    cursor_columns, line_display, lines_before_last, nat_cols, LineList,
};
use crate::terminal::Terminal;
use crate::text::{
    ascii_between, char_index, char_index_exec, char_width, char_width_exec, chars_of, decimal,
    decimal_len, lemma_boundary_bounds, lemma_boundary_char_index, lemma_char_width, on_boundary,
    push_decimal, push_str, string_from_chars,
};
use vstd::utf8::is_ascii_chars;

verus! {

/// The lines once the cursor's line (row `row`) is broken at the cursor: the
/// text before the cursor stays, with the cursor at its end, and the text
/// from the cursor on becomes the next line, with the cursor at its start.
pub open spec fn split_at_cursor(lines: Seq<LineView>, row: nat) -> Seq<LineView> {
    let cur = lines[row - 1];
    lines.update(row - 1, LineView { text: cur.before(), pos: cur.pos }).insert(
        row as int,
        LineView { text: cur.after(), pos: 0 },
    )
}

/// The lines once line `row` is taken out and its text put into the line
/// above at that line's cursor, whose cursor stays where it was.
pub open spec fn merge_into_previous(lines: Seq<LineView>, row: nat) -> Seq<LineView> {
    let cur = lines[row - 1];
    let prev = lines[row - 2];
    lines.remove(row - 1).update(
        row - 2,
        LineView { text: prev.before() + cur.text + prev.after(), pos: prev.pos },
    )
}

/// The escape sequence that moves the cursor `k` lines down, or nothing when `k` is 0.
pub open spec fn down_display(k: int) -> Seq<char> {
    if k != 0 {
        "\x1b["@ + decimal(k as nat) + "E"@
    } else {
        Seq::<char>::empty()
    }
}

/// What `add_char` needs to type `c` without failing.
pub open spec fn can_add_char(term: Terminal, lines: LineList, c: char) -> bool {
    &&& lines.cursor_ok()
    &&& lines.cur().size() + char_width(c) <= usize::MAX
    &&& term.row_sz >= 6
    &&& lines.cur().pos + 1 + decimal(lines@.len()).len() + 5 <= usize::MAX
}

/// What `new_line` needs to break the cursor's line without failing.
pub open spec fn can_break_line(term: Terminal, lines: LineList) -> bool {
    let split = split_at_cursor(lines@, lines.row as nat);
    &&& lines.cursor_ok()
    &&& is_ascii_chars(lines.cur().after())
    &&& lines.top_row + term.row_sz <= usize::MAX
    &&& can_frame(term)
    &&& term.row_sz >= 6
    &&& column_fits(split, lines.row as int)
    &&& lines.row + 1 == lines.top_row + term.row_sz ==> can_print_all(
        split,
        (lines.row + 1) as nat,
        term,
    )
    &&& lines.row + 1 != lines.top_row + term.row_sz ==> {
        &&& can_print_all(split, lines.top_row as nat, term)
        &&& (lines.row + 1) % (term.row_sz as int) != 0
    }
}

/// What `delete` needs to delete backwards without failing.
pub open spec fn can_delete(term: Terminal, lines: LineList) -> bool {
    &&& lines.row_ok()
    &&& lines.cur().pos == 0 && lines.row != 1 ==> {
        let merged = merge_into_previous(lines@, lines.row as nat);
        let prev = lines@[lines.row - 2];
        &&& prev.at_boundary()
        &&& is_ascii_chars(lines.cur().text)
        &&& prev.size() + lines.cur().text.len() <= usize::MAX
        &&& can_frame(term)
        &&& term.row_sz >= 6
        &&& if lines.row == lines.top_row && lines.row != 2 {
            &&& term.row_sz <= lines.top_row
            &&& can_print_all(merged, (lines.top_row - term.row_sz) as nat, term)
        } else {
            &&& can_print_all(merged, lines.top_row as nat, term)
            &&& (lines.row - 1) % (term.row_sz as int) != 0
            &&& column_fits(merged, lines.row - 2)
        }
    }
    &&& lines.cur().pos != 0 ==> {
        &&& lines.cur().pos - 1 < lines.cur().size()
        &&& on_boundary(lines.cur().text, lines.cur().pos - 1)
        &&& term.row_sz >= 6
        &&& lines.cur().pos - 1 + decimal(lines@.len()).len() + 5 <= usize::MAX
    }
}

/// Edits the document; what it draws is returned for the caller to write to
/// the terminal.
pub struct ActionHandler {
    pub term: Terminal,
    pub title: String,
}

/// Appends the characters of `s` to `out`.
fn push_string(out: &mut Vec<char>, s: &String)
    ensures
        final(out)@ == old(out)@ + s@,
{
    push_str(out, s.as_str());
}

/// Breaks the cursor's line at the cursor and moves the cursor to the start of the new line.
fn break_line(lines: &mut LineList)
    requires
        old(lines).cursor_ok(),
        is_ascii_chars(old(lines).cur().after()),
    ensures
        final(lines)@ == split_at_cursor(old(lines)@, old(lines).row as nat),
        final(lines).row == old(lines).row + 1,
        final(lines).top_row == old(lines).top_row,
        old(lines).well_placed() ==> final(lines).well_placed(),
{
    let ghost split = split_at_cursor(old(lines)@, old(lines).row as nat);
    let ghost cur = old(lines).cur();
    proof {
        lemma_boundary_bounds(cur.text, cur.pos as int);
        lemma_boundary_char_index(cur.text, cur.pos as int);
        lemma_boundary_bounds(Seq::<char>::empty(), 0);
        assert(crate::text::encode_utf8_empty());
    }
    let current_pos = lines.current_pos();
    let line_length = lines.line_length();
    let chunk = lines.remove_chunk(current_pos, line_length);
    let chunk_chars = chars_of(chunk.as_str());
    if lines.line_count() == lines.row {
        lines.new_line(Line::new_empty());
    } else {
        let row = lines.row;
        lines.insert_line(row, Line::new_empty());
    }
    let count = lines.line_count();
    assert(lines.row < count);
    lines.row = lines.row + 1;
    lines.reset_line_pos();
    assert(lines.cur().text =~= Seq::<char>::empty());
    assert(lines.cur().size() == 0) by {
        crate::text::lemma_byte_len_single(' ');
    }
    let chunk_len = chunk_chars.len();
    assert(chunk_chars@.len() == chunk_len);
    lines.add_chars(&chunk_chars);
    lines.reset_line_pos();
    assert(cur.before() =~= cur.text.take(cur.cursor_index() as int));
    assert(lines@ =~= split);
}

/// Takes the cursor's line (which is not the first) out and puts its text into
/// the line above at that line's cursor; the cursor moves up and stays in place.
fn merge_line(lines: &mut LineList)
    requires
        2 <= old(lines).row <= old(lines)@.len(),
        old(lines)@[old(lines).row - 2].at_boundary(),
        is_ascii_chars(old(lines).cur().text),
        old(lines)@[old(lines).row - 2].size() + old(lines).cur().text.len() <= usize::MAX,
    ensures
        final(lines)@ == merge_into_previous(old(lines)@, old(lines).row as nat),
        final(lines).row == old(lines).row - 1,
        final(lines).top_row == old(lines).top_row,
        old(lines).well_placed() ==> final(lines).well_placed(),
{
    let ghost merged = merge_into_previous(old(lines)@, old(lines).row as nat);
    let ghost cur = old(lines).cur();
    let ghost prev = old(lines)@[old(lines).row - 2];
    proof {
        lemma_boundary_bounds(cur.text, 0);
        lemma_boundary_bounds(prev.text, prev.pos as int);
        crate::text::lemma_ascii_byte_len(cur.text);
        assert(cur.text.subrange(0, cur.text.len() as int) =~= cur.text);
    }
    let line_length = lines.line_length();
    let chunk = lines.remove_chunk(0, line_length);
    let chunk_chars = chars_of(chunk.as_str());
    lines.remove_line();
    lines.row = lines.row - 1;
    assert(lines.cur() == old(lines)@[old(lines).row - 2]);
    lines.add_chars(&chunk_chars);
    lines.set_pos_relative(chunk_chars.len(), true);
    assert(old(lines).cur().text.subrange(0, line_length as int) =~= old(lines).cur().text);
    assert(lines@ =~= merged);
}

impl ActionHandler {
    /// A handler for a terminal of size `term`, whose frame is titled `title`.
    pub fn new(term: Terminal, title: String) -> (h: ActionHandler)
        ensures
            h.term == term,
            h.title@ == title@,
    {
        ActionHandler { term, title }
    }

    /// Types `c` at the cursor and redraws the line.
    pub fn add_char(&mut self, lines: &mut LineList, c: char) -> (s: String)
        requires
            can_add_char(old(self).term, *old(lines), c),
        ensures
            old(lines).well_placed() ==> final(lines).well_placed(),
            *final(self) == *old(self),
            final(lines).row == old(lines).row,
            final(lines).top_row == old(lines).top_row,
            final(lines)@ == old(lines)@.update(
                old(lines).row - 1,
                LineView {
                    text: old(lines).cur().text.insert(old(lines).cur().cursor_index() as int, c),
                    pos: old(lines).cur().pos + 1,
                },
            ),
            s@ == line_display(final(lines)@, old(lines).row as nat, old(self).term.row_sz as nat),
    {
        let mut out: Vec<char> = Vec::new();
        proof {
            lemma_char_width(c);
        }
        lines.add(c);
        lines.render_line(self.term.row_sz, &mut out);
        string_from_chars(&out)
    }

    /// Breaks the cursor's line at the cursor (Enter): the rest of the line
    /// becomes a new line below, which the cursor moves to the start of. The
    /// screen is redrawn; when the new row falls just below the screen, the
    /// screen pages down to start at it.
    #[verifier::rlimit(40)]
    pub fn new_line(&mut self, lines: &mut LineList, move_mode: bool) -> (s: String)
        requires
            can_break_line(old(self).term, *old(lines)),
        ensures
            old(lines).well_placed() ==> final(lines).well_placed(),
            *final(self) == *old(self),
            final(lines)@ == split_at_cursor(old(lines)@, old(lines).row as nat),
            final(lines).row == old(lines).row + 1,
            if old(lines).row + 1 == old(lines).top_row + old(self).term.row_sz {
                let next = (old(lines).row + 1) as nat;
                &&& final(lines).top_row == next
                &&& s@ == redraw_display(old(self).term, move_mode, old(self).title@)
                    + all_display(final(lines)@, next, old(self).term) + home_display()
                    + line_display(final(lines)@, next, old(self).term.row_sz as nat)
                    + line_display(final(lines)@, next, old(self).term.row_sz as nat)
            } else {
                &&& final(lines).top_row == old(lines).top_row
                &&& s@ == redraw_display(old(self).term, move_mode, old(self).title@)
                    + all_display(final(lines)@, old(lines).top_row as nat, old(self).term)
                    + home_display() + down_display(
                    (old(lines).row + 1) % (old(self).term.row_sz as int) - 1,
                ) + line_display(
                    final(lines)@,
                    (old(lines).row + 1) as nat,
                    old(self).term.row_sz as nat,
                )
            },
    {
        break_line(lines);
        let mut out: Vec<char> = Vec::new();
        push_string(&mut out, &clear());
        push_string(&mut out, &frame(&self.term, move_mode, self.title.as_str()));
        push_string(&mut out, &home());
        if lines.row == lines.top_row + self.term.row_sz {
            lines.top_row = lines.row;
            lines.render_all(&self.term, &mut out);
            push_string(&mut out, &home());
            lines.row = lines.top_row;
            lines.render_line(self.term.row_sz, &mut out);
        } else {
            lines.render_all_from_top(&self.term, &mut out);
            push_string(&mut out, &home());
            let move_sz = (lines.row % self.term.row_sz) - 1;
            if move_sz != 0 {
                push_str(&mut out, "\x1b[");
                push_decimal(&mut out, move_sz);
                push_str(&mut out, "E");
            }
        }
        lines.render_line(self.term.row_sz, &mut out);
        string_from_chars(&out)
    }

    /// Deletes backwards (Backspace): the character that starts one byte
    /// before the cursor, or, at the start of a line other than the first, the
    /// break before it, which joins the line into the line above at that line's
    /// cursor and redraws the screen, paging up when the joined line is the
    /// first row shown. At the start of the first line nothing happens.
    #[verifier::rlimit(40)]
    pub fn delete(&mut self, lines: &mut LineList, move_mode: bool) -> (s: String)
        requires
            can_delete(old(self).term, *old(lines)),
        ensures
            old(lines).well_placed() ==> final(lines).well_placed(),
            *final(self) == *old(self),
            if old(lines).cur().pos == 0 && old(lines).row == 1 {
                &&& final(lines)@ == old(lines)@
                &&& final(lines).row == old(lines).row
                &&& final(lines).top_row == old(lines).top_row
                &&& s@ == Seq::<char>::empty()
            } else if old(lines).cur().pos == 0 {
                let merged = merge_into_previous(old(lines)@, old(lines).row as nat);
                &&& final(lines)@ == merged
                &&& if old(lines).row == old(lines).top_row && old(lines).row != 2 {
                    let top = (old(lines).top_row - old(self).term.row_sz) as nat;
                    let last = top + lines_before_last(merged.len(), top, old(self).term.row_sz as nat);
                    &&& final(lines).top_row == top
                    &&& final(lines).row == last
                    &&& s@ == redraw_display(old(self).term, move_mode, old(self).title@)
                        + all_display(merged, top, old(self).term) + line_display(
                        merged,
                        last,
                        old(self).term.row_sz as nat,
                    )
                } else {
                    &&& final(lines).top_row == old(lines).top_row
                    &&& final(lines).row == old(lines).row - 1
                    &&& s@ == redraw_display(old(self).term, move_mode, old(self).title@)
                        + all_display(merged, old(lines).top_row as nat, old(self).term)
                        + home_display() + down_display(
                        (old(lines).row - 1) % (old(self).term.row_sz as int) - 1,
                    ) + line_display(
                        merged,
                        (old(lines).row - 1) as nat,
                        old(self).term.row_sz as nat,
                    )
                }
            } else {
                &&& final(lines)@ == old(lines)@.update(
                    old(lines).row - 1,
                    LineView {
                        text: old(lines).cur().text.remove(
                            char_index(old(lines).cur().text, old(lines).cur().pos - 1) as int,
                        ),
                        pos: (old(lines).cur().pos - 1) as nat,
                    },
                )
                &&& final(lines).row == old(lines).row
                &&& final(lines).top_row == old(lines).top_row
                &&& s@ == line_display(
                    final(lines)@,
                    old(lines).row as nat,
                    old(self).term.row_sz as nat,
                )
            },
    {
        let mut out: Vec<char> = Vec::new();
        if !(lines.current_pos() == 0 && lines.row == 1) {
            if lines.current_pos() == 0 {
                merge_line(lines);
                push_string(&mut out, &clear());
                push_string(&mut out, &frame(&self.term, move_mode, self.title.as_str()));
                push_string(&mut out, &home());
                if lines.row + 1 == lines.top_row && lines.row != 1 {
                    lines.top_row = lines.top_row - self.term.row_sz;
                    lines.row = lines.top_row;
                    lines.render_all(&self.term, &mut out);
                } else {
                    lines.render_all_from_top(&self.term, &mut out);
                    push_string(&mut out, &home());
                    let move_sz = (lines.row % self.term.row_sz) - 1;
                    if move_sz != 0 {
                        push_str(&mut out, "\x1b[");
                        push_decimal(&mut out, move_sz);
                        push_str(&mut out, "E");
                    }
                }
                lines.render_line(self.term.row_sz, &mut out);
            } else {
                lines.remove();
                lines.render_line(self.term.row_sz, &mut out);
            }
        }
        string_from_chars(&out)
    }

    /// Whether `add_char` can type `c` on `lines`.
    pub fn can_add(&self, lines: &LineList, c: char) -> (b: bool)
        ensures
            b == can_add_char(self.term, *lines, c),
    {
        if !(1 <= lines.row && lines.row <= lines.line_count()) {
            return false;
        }
        let pos = lines.current_pos();
        let len = lines.line_length();
        let digits = decimal_len(lines.line_count());
        let at_boundary = match char_index_exec(lines.e[lines.row - 1].chars(), pos) {
            Some(_) => true,
            None => false,
        };
        at_boundary && len <= usize::MAX - char_width_exec(c) && self.term.row_sz >= 6 && pos
            <= usize::MAX - 6 - digits
    }

    /// Whether `new_line` can break the cursor's line on `lines`.
    pub fn can_new_line(&self, lines: &LineList) -> (b: bool)
        ensures
            b == can_break_line(self.term, *lines),
    {
        let term = &self.term;
        if !(1 <= lines.row && lines.row <= lines.line_count()) {
            return false;
        }
        let text = lines.e[lines.row - 1].chars();
        let k = match char_index_exec(text, lines.current_pos()) {
            Some(k) => k,
            None => {
                return false;
            },
        };
        if !ascii_between(text, k, text.len()) || lines.top_row > usize::MAX - term.row_sz
            || !frame_fits(term) || term.row_sz < 6 {
            return false;
        }
        let ghost split = split_at_cursor(lines@, lines.row as nat);
        let mut cols = lines.columns();
        assert(nat_cols(cols@).len() == cols@.len());
        let ghost before = cols@;
        cols.insert(lines.row, 0);
        assert(split.len() == lines@.len() + 1);
        assert forall|k: int| 0 <= k < split.len() implies #[trigger] nat_cols(cols@)[k]
            == cursor_columns(split)[k] by {
            if k < lines.row {
                assert(nat_cols(before)[k] == cursor_columns(lines@)[k]);
            } else if k > lines.row {
                assert(nat_cols(before)[k - 1] == cursor_columns(lines@)[k - 1]);
            }
        }
        assert(nat_cols(cols@) =~= cursor_columns(split));
        if !col_fits_exec(&cols, lines.row) {
            return false;
        }
        if lines.row + 1 == lines.top_row + term.row_sz {
            cols_can_print_all_exec(&cols, lines.row + 1, term)
        } else {
            cols_can_print_all_exec(&cols, lines.top_row, term) && (lines.row + 1) % term.row_sz
                != 0
        }
    }

    /// Whether `delete` can delete backwards on `lines`.
    pub fn can_delete_on(&self, lines: &LineList) -> (b: bool)
        ensures
            b == can_delete(self.term, *lines),
    {
        let term = &self.term;
        if !(1 <= lines.row && lines.row <= lines.line_count()) {
            return false;
        }
        let pos = lines.current_pos();
        let digits = decimal_len(lines.line_count());
        if pos != 0 {
            let at_boundary = match char_index_exec(lines.e[lines.row - 1].chars(), pos - 1) {
                Some(_) => true,
                None => false,
            };
            return pos <= lines.line_length() && at_boundary && term.row_sz >= 6 && pos - 1
                <= usize::MAX - 5 - digits;
        }
        if lines.row == 1 {
            return true;
        }
        let prev = &lines.e[lines.row - 2];
        let text = lines.e[lines.row - 1].chars();
        let prev_at_boundary = match char_index_exec(prev.chars(), prev.pos()) {
            Some(_) => true,
            None => false,
        };
        if !prev_at_boundary || !ascii_between(text, 0, text.len()) || prev.len() > usize::MAX
            - text.len() || !frame_fits(term) || term.row_sz < 6 {
            return false;
        }
        assert(text@.subrange(0, text@.len() as int) =~= text@);
        let ghost merged = merge_into_previous(lines@, lines.row as nat);
        let mut cols = lines.columns();
        assert(nat_cols(cols@).len() == cols@.len());
        let ghost before = cols@;
        cols.remove(lines.row - 1);
        assert(merged.len() == lines@.len() - 1);
        assert forall|k: int| 0 <= k < merged.len() implies #[trigger] nat_cols(cols@)[k]
            == cursor_columns(merged)[k] by {
            if k < lines.row - 1 {
                assert(nat_cols(before)[k] == cursor_columns(lines@)[k]);
            } else {
                assert(nat_cols(before)[k + 1] == cursor_columns(lines@)[k + 1]);
            }
        }
        assert(nat_cols(cols@) =~= cursor_columns(merged));
        if lines.row == lines.top_row && lines.row != 2 {
            term.row_sz <= lines.top_row && cols_can_print_all_exec(
                &cols,
                lines.top_row - term.row_sz,
                term,
            )
        } else {
            cols_can_print_all_exec(&cols, lines.top_row, term) && (lines.row - 1) % term.row_sz
                != 0 && col_fits_exec(&cols, lines.row - 2)
        }
    }
}

} // verus!
