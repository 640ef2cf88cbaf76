//! The mode that types: printable keys are typed at the cursor, Enter breaks
//! the line, Backspace deletes backwards and Escape leaves for the moving mode.

use vstd::prelude::*;
use super::Mode;
use crate::line::{Line, LineView};
use crate::line::list::{ascii_line, bare_column_fits, bare_line_display, LineList};
use crate::text::{
    ascii_between, char_index, char_index_exec, chars_of, decimal_len, lemma_ascii_byte_len,
    lemma_ascii_char_index, lemma_ascii_subrange, lemma_boundary_bounds,
    lemma_boundary_char_index, lemma_char_width, lemma_decimal_len_half, on_boundary, push_str,
    string_from_chars,
};
use vstd::utf8::{is_ascii_chars, is_ascii_chars_concat};

verus! {

/// Whether `c` is one of the printable characters that insert mode types:
/// the space and the visible ASCII characters.
pub open spec fn is_typed(c: char) -> bool {
    32 <= c as int <= 126
}

/// The lines before Enter is handled on row `row`: an empty line is added at
/// the end first when the cursor is on the last line.
pub open spec fn with_room_below(lines: Seq<LineView>, row: nat) -> Seq<LineView> {
    if lines.len() == row {
        lines.push(LineView { text: Seq::<char>::empty(), pos: 0 })
    } else {
        lines
    }
}

/// `text` with `piece` put in at byte offset `pos`.
pub open spec fn insert_at(text: Seq<char>, pos: nat, piece: Seq<char>) -> Seq<char> {
    let k = char_index(text, pos as int) as int;
    text.subrange(0, k) + piece + text.subrange(k, text.len() as int)
}

/// The lines once Enter cut the text after the cursor off line `row` and put it
/// into the next line at that line's cursor, whose cursor stays where it was.
pub open spec fn carried_down(lines: Seq<LineView>, row: nat) -> Seq<LineView> {
    let cur = lines[row - 1];
    let next = lines[row as int];
    lines.update(row - 1, LineView { text: cur.before(), pos: cur.pos }).update(
        row as int,
        LineView { text: insert_at(next.text, next.pos, cur.after()), pos: next.pos },
    )
}

/// The lines once Backspace at the start of line `row` emptied it and put its
/// text into the line above at that line's cursor, whose cursor stays where it was.
pub open spec fn carried_up(lines: Seq<LineView>, row: nat) -> Seq<LineView> {
    let cur = lines[row - 1];
    let prev = lines[row - 2];
    lines.update(row - 1, LineView { text: Seq::<char>::empty(), pos: 0 }).update(
        row - 2,
        LineView { text: insert_at(prev.text, prev.pos, cur.text), pos: prev.pos },
    )
}

/// Putting an ASCII character into an ASCII text leaves it ASCII.
proof fn lemma_ascii_insert(t: Seq<char>, k: int, c: char)
    requires
        is_ascii_chars(t),
        0 <= k <= t.len(),
        32 <= c as int <= 126,
    ensures
        is_ascii_chars(t.insert(k, c)),
{
    assert forall|i: int| 0 <= i < t.insert(k, c).len() implies '\0' <= #[trigger] t.insert(k, c)[i]
        <= '\u{7f}' by {
        if i < k {
            assert(t.insert(k, c)[i] == t[i]);
        } else if i > k {
            assert(t.insert(k, c)[i] == t[i - 1]);
        }
    }
}

/// Taking a character out of an ASCII text leaves it ASCII.
proof fn lemma_ascii_remove(t: Seq<char>, k: int)
    requires
        is_ascii_chars(t),
        0 <= k < t.len(),
    ensures
        is_ascii_chars(t.remove(k)),
{
    assert forall|i: int| 0 <= i < t.remove(k).len() implies '\0' <= #[trigger] t.remove(k)[i]
        <= '\u{7f}' by {
        if i < k {
            assert(t.remove(k)[i] == t[i]);
        } else {
            assert(t.remove(k)[i] == t[i + 1]);
        }
    }
}

/// Three ASCII texts one after the other are ASCII.
proof fn lemma_ascii_concat3(a: Seq<char>, b: Seq<char>, c: Seq<char>)
    requires
        is_ascii_chars(a),
        is_ascii_chars(b),
        is_ascii_chars(c),
    ensures
        is_ascii_chars(a + b + c),
{
    is_ascii_chars_concat(a + b, a, b);
    is_ascii_chars_concat(a + b + c, a + b, c);
}

/// Moves the cursor's line's text after the cursor into the next line at that
/// line's cursor, and returns the compact drawing of the shortened line.
fn carry_down(lines: &mut LineList) -> (s: Vec<char>)
    requires
        1 <= old(lines).row < old(lines)@.len(),
        old(lines).cur().at_boundary(),
        is_ascii_chars(old(lines).cur().after()),
        old(lines)@[old(lines).row as int].at_boundary(),
        old(lines)@[old(lines).row as int].size() + old(lines).cur().after().len() <= usize::MAX,
        bare_column_fits(old(lines)@, old(lines).row as nat),
    ensures
        final(lines)@ == carried_down(old(lines)@, old(lines).row as nat),
        final(lines).row == old(lines).row + 1,
        final(lines).top_row == old(lines).top_row,
        old(lines).well_placed() ==> final(lines).well_placed(),
        old(lines).ascii_placed() ==> final(lines).ascii_placed(),
        s@ == bare_line_display(
            old(lines)@.update(
                old(lines).row - 1,
                LineView { text: old(lines).cur().before(), pos: old(lines).cur().pos },
            ),
            old(lines).row as nat,
        ),
{
    let ghost want = carried_down(old(lines)@, old(lines).row as nat);
    let ghost cur = old(lines).cur();
    let ghost row = old(lines).row as int;
    let ghost next = old(lines)@[row];
    proof {
        lemma_boundary_bounds(cur.text, cur.pos as int);
        lemma_boundary_char_index(cur.text, cur.pos as int);
        assert(cur.before() =~= cur.text.take(cur.cursor_index() as int));
    }
    let mut out: Vec<char> = Vec::new();
    let pos = lines.current_pos();
    let len = lines.line_length();
    let chunk = lines.remove_chunk(pos, len);
    let chunk_chars = chars_of(chunk.as_str());
    lines.render_line_bare(&mut out);
    let count = lines.line_count();
    assert(lines.row < count);
    lines.row = lines.row + 1;
    let chunk_len = chunk_chars.len();
    assert(chunk_chars@.len() == chunk_len);
    lines.add_chars(&chunk_chars);
    lines.set_pos_relative(chunk_chars.len(), true);
    assert(lines@ =~= want);
    proof {
        if old(lines).well_placed() {
            assert forall|i: int| 0 <= i < lines@.len() implies #[trigger] lines@[i].pos
                <= lines@[i].size() by {
                if i != row - 1 && i != row {
                    assert(lines@[i] == old(lines)@[i]);
                }
            }
        }
        if old(lines).ascii_placed() {
            assert(ascii_line(cur) && ascii_line(next));
            lemma_ascii_char_index(cur.text, cur.pos as int);
            lemma_ascii_char_index(next.text, next.pos as int);
            lemma_ascii_subrange(cur.text, 0, cur.pos as int);
            lemma_ascii_subrange(next.text, 0, next.pos as int);
            lemma_ascii_subrange(next.text, next.pos as int, next.text.len() as int);
            lemma_ascii_concat3(
                next.text.subrange(0, next.pos as int),
                cur.after(),
                next.text.subrange(next.pos as int, next.text.len() as int),
            );
            assert forall|i: int| 0 <= i < lines@.len() implies #[trigger] ascii_line(lines@[i]) by {
                if i != row - 1 && i != row {
                    assert(lines@[i] == old(lines)@[i]);
                }
            }
        }
    }
    out
}

/// Empties the cursor's line (not the first) into the line above at that
/// line's cursor, and returns the compact drawing of the emptied line.
fn carry_up(lines: &mut LineList) -> (s: Vec<char>)
    requires
        2 <= old(lines).row <= old(lines)@.len(),
        old(lines)@[old(lines).row - 2].at_boundary(),
        is_ascii_chars(old(lines).cur().text),
        old(lines)@[old(lines).row - 2].size() + old(lines).cur().text.len() <= usize::MAX,
    ensures
        final(lines)@ == carried_up(old(lines)@, old(lines).row as nat),
        final(lines).row == old(lines).row - 1,
        final(lines).top_row == old(lines).top_row,
        old(lines).well_placed() ==> final(lines).well_placed(),
        old(lines).ascii_placed() ==> final(lines).ascii_placed(),
        s@ == bare_line_display(
            old(lines)@.update(old(lines).row - 1, LineView { text: Seq::<char>::empty(), pos: 0 }),
            old(lines).row as nat,
        ),
{
    let ghost want = carried_up(old(lines)@, old(lines).row as nat);
    let ghost cur = old(lines).cur();
    let ghost row = old(lines).row as int;
    let ghost prev = old(lines)@[row - 2];
    proof {
        lemma_boundary_bounds(cur.text, 0);
        lemma_ascii_byte_len(cur.text);
    }
    let mut out: Vec<char> = Vec::new();
    let len = lines.line_length();
    let chunk = lines.remove_chunk(0, len);
    let chunk_chars = chars_of(chunk.as_str());
    assert(old(lines).cur().text.subrange(0, 0) + old(lines).cur().text.subrange(len as int, len as int)
        =~= Seq::<char>::empty());
    proof {
        lemma_decimal_len_half(lines.row as nat);
    }
    lines.render_line_bare(&mut out);
    lines.row = lines.row - 1;
    assert(lines.cur() == old(lines)@[old(lines).row - 2]);
    lines.add_chars(&chunk_chars);
    lines.set_pos_relative(chunk_chars.len(), true);
    assert(old(lines).cur().text.subrange(0, len as int) =~= old(lines).cur().text);
    assert(lines@ =~= want);
    proof {
        if old(lines).well_placed() {
            assert forall|i: int| 0 <= i < lines@.len() implies #[trigger] lines@[i].pos
                <= lines@[i].size() by {
                if i != row - 1 && i != row - 2 {
                    assert(lines@[i] == old(lines)@[i]);
                } else if i == row - 1 {
                    assert(crate::text::encode_utf8_empty()) by {
                        crate::text::lemma_byte_len_single(' ');
                    }
                }
            }
        }
        if old(lines).ascii_placed() {
            assert(ascii_line(cur) && ascii_line(prev));
            lemma_ascii_char_index(prev.text, prev.pos as int);
            lemma_ascii_subrange(prev.text, 0, prev.pos as int);
            lemma_ascii_subrange(prev.text, prev.pos as int, prev.text.len() as int);
            lemma_ascii_concat3(
                prev.text.subrange(0, prev.pos as int),
                cur.text,
                prev.text.subrange(prev.pos as int, prev.text.len() as int),
            );
            assert forall|i: int| 0 <= i < lines@.len() implies #[trigger] ascii_line(lines@[i]) by {
                if i != row - 1 && i != row - 2 {
                    assert(lines@[i] == old(lines)@[i]);
                }
            }
        }
    }
    out
}

/// The lines after Enter on row `row`.
pub open spec fn entered(lines: Seq<LineView>, row: nat) -> Seq<LineView> {
    let room = with_room_below(lines, row);
    if lines[row - 1].pos != lines[row - 1].size() {
        carried_down(room, row)
    } else {
        room
    }
}

/// The lines after Backspace at the start of row `row`, which is not the first:
/// an empty line is taken out; otherwise its text goes up into the line above.
pub open spec fn backed_up(lines: Seq<LineView>, row: nat) -> Seq<LineView> {
    if lines[row - 1].size() == 0 {
        lines.remove(row - 1)
    } else {
        carried_up(lines, row)
    }
}

/// What insert mode needs to handle key `c` without failing.
pub open spec fn can_insert(lines: LineList, c: char) -> bool {
    let row = lines.row as nat;
    let cur = lines.cur();
    if c == '\n' {
        let room = with_room_below(lines@, row);
        &&& lines.row_ok()
        &&& lines.row < usize::MAX
        &&& cur.pos != cur.size() ==> {
            &&& cur.at_boundary()
            &&& is_ascii_chars(cur.after())
            &&& room[row as int].at_boundary()
            &&& room[row as int].size() + cur.after().len() <= usize::MAX
            &&& bare_column_fits(room.update(row - 1, LineView { text: cur.before(), pos: cur.pos }), row)
        }
        &&& bare_column_fits(entered(lines@, row), row + 1)
    } else if c == '\x7f' {
        &&& lines.row_ok()
        &&& cur.pos == 0 && row != 1 ==> {
            &&& cur.size() != 0 ==> {
                &&& lines@[row - 2].at_boundary()
                &&& is_ascii_chars(cur.text)
                &&& lines@[row - 2].size() + cur.text.len() <= usize::MAX
            }
            &&& bare_column_fits(backed_up(lines@, row), (row - 1) as nat)
        }
        &&& cur.pos != 0 ==> {
            &&& cur.pos - 1 < cur.size()
            &&& on_boundary(cur.text, cur.pos - 1)
            &&& bare_column_fits(
                lines@.update(
                    row - 1,
                    LineView {
                        text: cur.text.remove(char_index(cur.text, cur.pos - 1) as int),
                        pos: (cur.pos - 1) as nat,
                    },
                ),
                row,
            )
        }
    } else if is_typed(c) {
        &&& lines.cursor_ok()
        &&& cur.size() < usize::MAX
        &&& bare_column_fits(
            lines@.update(
                row - 1,
                LineView { text: cur.text.insert(cur.cursor_index() as int, c), pos: cur.pos + 1 },
            ),
            row,
        )
    } else {
        true
    }
}

/// Handles key `c` in insert mode. Returns the mode to switch to (the moving
/// mode on Escape), or `None` to stay and read the next key, and what to draw.
/// Enter moves the text after the cursor into the next line at that line's
/// cursor (adding an empty last line first when on the last line) and moves
/// down; Backspace deletes the character before the cursor, or at the start of
/// a line moves its text into the line above and moves up (an empty line is
/// taken out instead); a printable character is typed.
pub fn handle_insert(lines: &mut LineList, c: char) -> (res: (Option<Mode>, String))
    requires
        can_insert(*old(lines), c),
    ensures
        old(lines).well_placed() ==> final(lines).well_placed(),
        old(lines).ascii_placed() ==> final(lines).ascii_placed(),
        final(lines).top_row == old(lines).top_row,
        res.0 == (if c == '\x1b' {
            Some(Mode::Escape)
        } else {
            None::<Mode>
        }),
        if c == '\x1b' {
            &&& final(lines)@ == old(lines)@
            &&& final(lines).row == old(lines).row
            &&& res.1@ == Seq::<char>::empty()
        } else if c == '\n' {
            let row = old(lines).row as nat;
            let cur = old(lines).cur();
            let lead = if cur.pos != cur.size() {
                bare_line_display(
                    with_room_below(old(lines)@, row).update(
                        row - 1,
                        LineView { text: cur.before(), pos: cur.pos },
                    ),
                    row,
                )
            } else {
                Seq::<char>::empty()
            };
            &&& final(lines)@ == entered(old(lines)@, row)
            &&& final(lines).row == row + 1
            &&& res.1@ == lead + "\x1b[1E"@ + bare_line_display(final(lines)@, row + 1)
        } else if c == '\x7f' {
            let row = old(lines).row as nat;
            let cur = old(lines).cur();
            if cur.pos == 0 && row == 1 {
                &&& final(lines)@ == old(lines)@
                &&& final(lines).row == row
                &&& res.1@ == Seq::<char>::empty()
            } else if cur.pos == 0 {
                let lead = if cur.size() == 0 {
                    "\x1b[2K"@
                } else {
                    bare_line_display(
                        old(lines)@.update(row - 1, LineView { text: Seq::<char>::empty(), pos: 0 }),
                        row,
                    )
                };
                &&& final(lines)@ == backed_up(old(lines)@, row)
                &&& final(lines).row == row - 1
                &&& res.1@ == lead + "\x1b[1F"@ + bare_line_display(final(lines)@, (row - 1) as nat)
            } else {
                &&& final(lines)@ == old(lines)@.update(
                    row - 1,
                    LineView {
                        text: cur.text.remove(char_index(cur.text, cur.pos - 1) as int),
                        pos: (cur.pos - 1) as nat,
                    },
                )
                &&& final(lines).row == row
                &&& res.1@ == bare_line_display(final(lines)@, row)
            }
        } else if is_typed(c) {
            let row = old(lines).row as nat;
            let cur = old(lines).cur();
            &&& final(lines)@ == old(lines)@.update(
                row - 1,
                LineView { text: cur.text.insert(cur.cursor_index() as int, c), pos: cur.pos + 1 },
            )
            &&& final(lines).row == row
            &&& res.1@ == bare_line_display(final(lines)@, row)
        } else {
            &&& final(lines)@ == old(lines)@
            &&& final(lines).row == old(lines).row
            &&& res.1@ == Seq::<char>::empty()
        },
{
    let mut out: Vec<char> = Vec::new();
    if c == '\x1b' {
        return (Some(Mode::Escape), string_from_chars(&out));
    }
    let ghost was_ascii = old(lines).ascii_placed();
    if c == '\n' {
        if lines.line_count() == lines.row {
            lines.new_line(Line::new_empty());
            proof {
                if was_ascii {
                    assert forall|i: int| 0 <= i < lines@.len() implies #[trigger] ascii_line(
                        lines@[i],
                    ) by {
                        if i < old(lines)@.len() {
                            assert(lines@[i] == old(lines)@[i]);
                        }
                    }
                }
            }
        }
        if lines.current_pos() != lines.line_length() {
            let lead = carry_down(lines);
            out = lead;
        } else {
            let count = lines.line_count();
            assert(lines.row < count);
            lines.row = lines.row + 1;
        }
        push_str(&mut out, "\x1b[1E");
        lines.render_line_bare(&mut out);
    } else if c == '\x7f' {
        if !(lines.current_pos() == 0 && lines.row == 1) {
            if lines.current_pos() == 0 {
                if lines.line_length() == 0 {
                    push_str(&mut out, "\x1b[2K");
                    lines.remove_line();
                    lines.row = lines.row - 1;
                    proof {
                        if was_ascii {
                            assert forall|i: int| 0 <= i < lines@.len() implies #[trigger] ascii_line(
                                lines@[i],
                            ) by {
                                if i < old(lines).row - 1 {
                                    assert(lines@[i] == old(lines)@[i]);
                                } else {
                                    assert(lines@[i] == old(lines)@[i + 1]);
                                }
                            }
                        }
                    }
                } else {
                    let lead = carry_up(lines);
                    out = lead;
                }
                push_str(&mut out, "\x1b[1F");
                lines.render_line_bare(&mut out);
            } else {
                lines.remove();
                proof {
                    if was_ascii {
                        let cur = old(lines).cur();
                        assert(ascii_line(cur));
                        lemma_ascii_char_index(cur.text, cur.pos - 1);
                        lemma_ascii_remove(cur.text, cur.pos - 1);
                        assert forall|i: int| 0 <= i < lines@.len() implies #[trigger] ascii_line(
                            lines@[i],
                        ) by {
                            if i != old(lines).row - 1 {
                                assert(lines@[i] == old(lines)@[i]);
                            }
                        }
                    }
                }
                lines.render_line_bare(&mut out);
            }
        }
    } else if c >= ' ' && c <= '~' {
        proof {
            lemma_char_width(c);
        }
        lines.add(c);
        proof {
            if was_ascii {
                let cur = old(lines).cur();
                assert(ascii_line(cur));
                lemma_ascii_char_index(cur.text, cur.pos as int);
                lemma_ascii_insert(cur.text, cur.pos as int, c);
                assert forall|i: int| 0 <= i < lines@.len() implies #[trigger] ascii_line(lines@[i]) by {
                    if i != old(lines).row - 1 {
                        assert(lines@[i] == old(lines)@[i]);
                    }
                }
            }
        }
        lines.render_line_bare(&mut out);
    }
    (None, string_from_chars(&out))
}

/// Whether `handle_insert` can handle key `c` on `lines`.
pub fn can_insert_key(lines: &LineList, c: char) -> (b: bool)
    ensures
        b == can_insert(*lines, c),
{
    let row = lines.row;
    if c == '\n' {
        if !(1 <= row && row <= lines.line_count()) {
            return false;
        }
        let pos = lines.current_pos();
        let len = lines.line_length();
        let ghost room = with_room_below(lines@, row as nat);
        let (next_pos, next_len, next_at_boundary) = if lines.line_count() == row {
            proof {
                lemma_boundary_bounds(Seq::<char>::empty(), 0);
                crate::text::lemma_byte_len_single(' ');
            }
            (0, 0, true)
        } else {
            let next = &lines.e[row];
            let at = match char_index_exec(next.chars(), next.pos()) {
                Some(_) => true,
                None => false,
            };
            (next.pos(), next.len(), at)
        };
        assert(room[row as int].pos == next_pos && room[row as int].size() == next_len);
        assert(room[row as int].at_boundary() == next_at_boundary);
        assert(entered(lines@, row as nat)[row as int].pos == next_pos);
        if pos != len {
            let text = lines.e[row - 1].chars();
            let k = match char_index_exec(text, pos) {
                Some(k) => k,
                None => {
                    return false;
                },
            };
            let rest = text.len() - k;
            let row_digits = decimal_len(row);
            if !(ascii_between(text, k, text.len()) && next_at_boundary && next_len <= usize::MAX
                - rest && pos <= usize::MAX - 2 - row_digits) {
                return false;
            }
        }
        if row == usize::MAX {
            return false;
        }
        let next_digits = decimal_len(row + 1);
        next_pos <= usize::MAX - 2 - next_digits
    } else if c == '\x7f' {
        if !(1 <= row && row <= lines.line_count()) {
            return false;
        }
        let pos = lines.current_pos();
        let len = lines.line_length();
        if pos == 0 && row != 1 {
            let prev = &lines.e[row - 2];
            let up_digits = decimal_len(row - 1);
            if len != 0 {
                let text = lines.e[row - 1].chars();
                let prev_at_boundary = match char_index_exec(prev.chars(), prev.pos()) {
                    Some(_) => true,
                    None => false,
                };
                assert(text@.subrange(0, text@.len() as int) =~= text@);
                if !(prev_at_boundary && ascii_between(text, 0, text.len()) && prev.len()
                    <= usize::MAX - text.len()) {
                    return false;
                }
            }
            prev.pos() <= usize::MAX - 2 - up_digits
        } else if pos != 0 {
            let row_digits = decimal_len(row);
            let at_boundary = match char_index_exec(lines.e[row - 1].chars(), pos - 1) {
                Some(_) => true,
                None => false,
            };
            pos <= len && at_boundary && pos - 1 <= usize::MAX - 2 - row_digits
        } else {
            true
        }
    } else if c >= ' ' && c <= '~' {
        if !(1 <= row && row <= lines.line_count()) {
            return false;
        }
        let pos = lines.current_pos();
        let len = lines.line_length();
        let row_digits = decimal_len(row);
        let at_boundary = match char_index_exec(lines.e[row - 1].chars(), pos) {
            Some(_) => true,
            None => false,
        };
        at_boundary && len < usize::MAX && pos <= usize::MAX - 3 - row_digits
    } else {
        true
    }
}

} // verus!
