//! What holds of the editor across operations: how each edit changes the text
//! that is saved, and which edits undo each other.

use vstd::prelude::*;
use crate::handle::action::{merge_into_previous, split_at_cursor};
use crate::line::LineView;
use crate::keys::{spec_command_for, Command};
use crate::line::list::{ascii_line, lines_before_last, loaded_lines, texts, LineList};
use crate::mode::insert::{backed_up, can_insert, entered, is_typed, with_room_below};
use crate::text::{
    byte_len, char_index, join_lines, lemma_ascii_char_index, lemma_ascii_subrange,
    lemma_byte_len_take_mono, lemma_join_lines_concat, lemma_split_lines_nonempty,
    lemma_boundary_bounds, lemma_boundary_char_index, lemma_decimal_len_half,
    lemma_insert_at_boundary, lemma_join_lines_around, lemma_join_lines_split_at,
    lemma_join_split_lines, on_boundary, split_lines, text_after, text_before, trim_end,
};

verus! {

/// Where byte offset `p` of row `row` falls in the saved text: the characters
/// of the rows above it, with their line breaks, and the characters before `p`.
pub open spec fn offset_of(lines: Seq<LineView>, row: nat, p: int) -> int {
    (text_before(texts(lines), row - 1).len() + char_index(lines[row - 1].text, p)) as int
}

/// Where the cursor of row `row` falls in the saved text.
pub open spec fn cursor_offset(lines: Seq<LineView>, row: nat) -> int {
    offset_of(lines, row, lines[row - 1].pos as int)
}

/// Saving a file just loaded writes its contents back without their trailing
/// white space: joining the loaded lines gives the trimmed text.
pub proof fn law_load_then_join(contents: Seq<char>)
    ensures
        join_lines(texts(loaded_lines(contents))) == trim_end(contents),
{
    let t = trim_end(contents);
    assert(texts(loaded_lines(contents)) =~= split_lines(t));
    lemma_join_split_lines(t);
}

/// The texts once line `i` holds `text`.
proof fn lemma_texts_update(lines: Seq<LineView>, i: int, line: LineView)
    requires
        0 <= i < lines.len(),
    ensures
        texts(lines.update(i, line)) == texts(lines).take(i) + seq![line.text] + texts(lines).skip(
            i + 1,
        ),
{
    assert(texts(lines.update(i, line)) =~= texts(lines).take(i) + seq![line.text] + texts(
        lines,
    ).skip(i + 1));
}

/// Typing a character at the cursor puts it into the saved text at the cursor's place.
pub proof fn law_typing_inserts_char(lines: Seq<LineView>, row: nat, c: char)
    requires
        1 <= row <= lines.len(),
        lines[row - 1].at_boundary(),
    ensures
        ({
            let cur = lines[row - 1];
            join_lines(
                texts(
                    lines.update(
                        row - 1,
                        LineView {
                            text: cur.text.insert(cur.cursor_index() as int, c),
                            pos: cur.pos + 1,
                        },
                    ),
                ),
            ) == join_lines(texts(lines)).insert(cursor_offset(lines, row), c)
        }),
{
    let cur = lines[row - 1];
    let i = row - 1;
    let t = texts(lines);
    lemma_boundary_char_index(cur.text, cur.pos as int);
    let line = LineView { text: cur.text.insert(cur.cursor_index() as int, c), pos: cur.pos + 1 };
    lemma_texts_update(lines, i, line);
    lemma_join_lines_around(t, i, seq![line.text]);
    lemma_join_lines_split_at(t, i);
    assert(join_lines(seq![line.text]) == line.text);
    assert(t[i] == cur.text);
    assert(join_lines(texts(lines.update(i, line))) =~= join_lines(t).insert(
        cursor_offset(lines, row),
        c,
    ));
}

/// Deleting the character that starts one byte before the cursor takes it out
/// of the saved text.
pub proof fn law_backspace_removes_char(lines: Seq<LineView>, row: nat)
    requires
        1 <= row <= lines.len(),
        1 <= lines[row - 1].pos,
        lines[row - 1].pos - 1 < lines[row - 1].size(),
        on_boundary(lines[row - 1].text, lines[row - 1].pos - 1),
    ensures
        ({
            let cur = lines[row - 1];
            join_lines(
                texts(
                    lines.update(
                        row - 1,
                        LineView {
                            text: cur.text.remove(char_index(cur.text, cur.pos - 1) as int),
                            pos: (cur.pos - 1) as nat,
                        },
                    ),
                ),
            ) == join_lines(texts(lines)).remove(offset_of(lines, row, lines[row - 1].pos - 1))
        }),
{
    let cur = lines[row - 1];
    let i = row - 1;
    let t = texts(lines);
    let k = char_index(cur.text, cur.pos - 1) as int;
    lemma_boundary_char_index(cur.text, cur.pos - 1);
    if k == cur.text.len() {
        assert(cur.text.take(k) =~= cur.text);
    }
    let line = LineView { text: cur.text.remove(k), pos: (cur.pos - 1) as nat };
    lemma_texts_update(lines, i, line);
    lemma_join_lines_around(t, i, seq![line.text]);
    lemma_join_lines_split_at(t, i);
    assert(join_lines(seq![line.text]) == line.text);
    assert(t[i] == cur.text);
    assert(join_lines(texts(lines.update(i, line))) =~= join_lines(t).remove(
        offset_of(lines, row, lines[row - 1].pos - 1),
    ));
}

/// Breaking a line at the cursor puts a newline into the saved text at the cursor's place.
pub proof fn law_new_line_inserts_break(lines: Seq<LineView>, row: nat)
    requires
        1 <= row <= lines.len(),
        lines[row - 1].at_boundary(),
    ensures
        join_lines(texts(split_at_cursor(lines, row))) == join_lines(texts(lines)).insert(
            cursor_offset(lines, row),
            '\n',
        ),
{
    let cur = lines[row - 1];
    let i = row - 1;
    let t = texts(lines);
    lemma_boundary_char_index(cur.text, cur.pos as int);
    let first = cur.before();
    let second = cur.after();
    let mid = seq![first, second];
    assert(texts(split_at_cursor(lines, row)) =~= t.take(i) + mid + t.skip(i + 1));
    lemma_join_lines_around(t, i, mid);
    lemma_join_lines_split_at(t, i);
    assert(mid.drop_last() =~= seq![first]);
    assert(join_lines(seq![first]) == first);
    assert(mid.last() == second);
    assert(join_lines(mid) == first + seq!['\n'] + second);
    assert(t[i] == cur.text);
    assert(join_lines(texts(split_at_cursor(lines, row))) =~= join_lines(t).insert(
        cursor_offset(lines, row),
        '\n',
    ));
}

/// Deleting at the start of the line that breaking a line made joins the two
/// halves back: the lines, texts and cursors, are as they were before.
pub proof fn law_delete_undoes_new_line(lines: Seq<LineView>, row: nat)
    requires
        1 <= row <= lines.len(),
        lines[row - 1].at_boundary(),
    ensures
        merge_into_previous(split_at_cursor(lines, row), row + 1) == lines,
{
    let cur = lines[row - 1];
    let split = split_at_cursor(lines, row);
    let merged = merge_into_previous(split, row + 1);
    lemma_boundary_char_index(cur.text, cur.pos as int);
    let before = cur.before();
    assert(before =~= cur.text.take(cur.cursor_index() as int));
    lemma_boundary_bounds(before, 0);
    assert(split[row - 1].text == before);
    assert(split[row - 1].pos == byte_len(before));
    assert(split[row - 1].before() =~= before);
    assert(split[row - 1].after() =~= Seq::<char>::empty());
    assert(merged[row - 1].text =~= cur.text);
    assert(merged =~= lines);
}

/// Deleting at the start of a line, when the line above has its cursor at its
/// end, takes the line break before it out of the saved text.
pub proof fn law_delete_at_line_start_removes_break(lines: Seq<LineView>, row: nat)
    requires
        2 <= row <= lines.len(),
        lines[row - 1].pos == 0,
        lines[row - 2].pos == lines[row - 2].size(),
    ensures
        join_lines(texts(merge_into_previous(lines, row))) == join_lines(texts(lines)).remove(
            cursor_offset(lines, row) - 1,
        ),
{
    let i = row - 2;
    let t = texts(lines);
    let prev = lines[row - 2];
    let cur = lines[row - 1];
    let joined = prev.text + cur.text;
    lemma_boundary_bounds(prev.text, 0);
    lemma_boundary_bounds(cur.text, 0);
    assert(prev.before() + cur.text + prev.after() =~= joined);
    let merged = merge_into_previous(lines, row);
    assert(merged =~= lines.remove(row - 1).update(i, LineView { text: joined, pos: prev.pos }));
    assert(texts(merged) =~= t.take(i) + seq![joined] + t.skip(i + 2));
    let pair = seq![prev.text, cur.text];
    assert(t =~= t.take(i) + pair + t.skip(i + 2));
    let t2 = t.take(i) + seq![joined] + t.skip(i + 2);
    assert(t2.take(i) =~= t.take(i));
    assert(t2.skip(i + 1) =~= t.skip(i + 2));
    lemma_join_lines_split_at(t2, i);
    lemma_join_lines_split_at(t, i);
    lemma_join_lines_split_at(t, i + 1);
    assert(t.take(i + 1).drop_last() =~= t.take(i));
    assert(t.take(i + 1).last() == prev.text);
    if i == 0 {
        assert(join_lines(t.take(1)) == prev.text);
    }
    assert(text_before(t, i + 1) =~= text_before(t, i) + prev.text + seq!['\n']);
    assert(text_before(t2, i) == text_before(t, i));
    assert(text_after(t2, i) == text_after(t, i + 1));
    assert(join_lines(texts(merge_into_previous(lines, row))) =~= join_lines(t).remove(
        cursor_offset(lines, row) - 1,
    ));
}

/// Deleting backwards right after typing a character at the cursor can always
/// be done and takes the character out again: the lines are as they were.
pub proof fn law_remove_undoes_add(lines: Seq<LineView>, row: nat, c: char)
    requires
        1 <= row <= lines.len(),
        lines[row - 1].at_boundary(),
    ensures
        ({
            let cur = lines[row - 1];
            let added = lines.update(
                row - 1,
                LineView { text: cur.text.insert(cur.cursor_index() as int, c), pos: cur.pos + 1 },
            );
            let a = added[row - 1];
            &&& 1 <= a.pos
            &&& a.pos - 1 < a.size()
            &&& on_boundary(a.text, a.pos - 1)
            &&& added.update(
                row - 1,
                LineView {
                    text: a.text.remove(char_index(a.text, a.pos - 1) as int),
                    pos: (a.pos - 1) as nat,
                },
            ) == lines
        }),
{
    let cur = lines[row - 1];
    let t = cur.text;
    let k = cur.cursor_index() as int;
    lemma_insert_at_boundary(t, cur.pos as int, seq![c]);
    lemma_boundary_char_index(t, cur.pos as int);
    crate::text::lemma_byte_len_single(c);
    crate::text::lemma_char_width(c);
    let u = t.subrange(0, k) + seq![c] + t.subrange(k, t.len() as int);
    assert(t.insert(k, c) =~= u);
    lemma_boundary_bounds(t, cur.pos as int);
    assert(u.remove(k) =~= t);
    let added = lines.update(row - 1, LineView { text: u, pos: cur.pos + 1 });
    assert(added.update(row - 1, LineView { text: u.remove(k), pos: cur.pos }) =~= lines);
}

/// In insert mode, on a document whose lines are all ASCII with each cursor
/// within its line, every key but Escape can be handled without failing, as
/// long as the row numbers and columns fit in a `usize` (here: no more rows
/// than half the largest `usize`, no line longer than a quarter of it).
/// Handling the key leaves every line ASCII with its cursor within it, which
/// `handle_insert` ensures.
pub proof fn law_insert_mode_can_go_on(lines: LineList, c: char)
    requires
        lines.ascii_placed(),
        c != '\x1b',
        lines@.len() <= usize::MAX / 2,
        forall|i: int| 0 <= i < lines@.len() ==> #[trigger] lines@[i].text.len() <= usize::MAX / 4,
    ensures
        can_insert(lines, c),
{
    let row = lines.row as nat;
    let cur = lines.cur();
    assert(ascii_line(lines@[row - 1]));
    assert(cur.text.len() <= usize::MAX / 4);
    lemma_ascii_char_index(cur.text, cur.pos as int);
    lemma_decimal_len_half(row);
    lemma_decimal_len_half(row + 1);
    lemma_decimal_len_half((row - 1) as nat);
    if c == '\n' {
        let room = with_room_below(lines@, row);
        if row < lines@.len() {
            let next = lines@[row as int];
            assert(ascii_line(next));
            assert(next.text.len() <= usize::MAX / 4);
            lemma_ascii_char_index(next.text, next.pos as int);
        } else {
            lemma_boundary_bounds(Seq::<char>::empty(), 0);
            crate::text::lemma_byte_len_single(' ');
        }
        lemma_ascii_subrange(cur.text, cur.pos as int, cur.text.len() as int);
        assert(entered(lines@, row)[row as int].pos == room[row as int].pos);
    } else if c == '\x7f' {
        if cur.pos == 0 && row != 1 {
            let prev = lines@[row - 2];
            assert(ascii_line(prev));
            assert(prev.text.len() <= usize::MAX / 4);
            lemma_ascii_char_index(prev.text, prev.pos as int);
            assert(backed_up(lines@, row)[row - 2].pos == prev.pos);
        }
        if cur.pos != 0 {
            lemma_ascii_char_index(cur.text, cur.pos - 1);
        }
    }
}

/// Moving the cursor right and then left (within the line) puts it back where it was.
pub proof fn law_left_undoes_right(lines: Seq<LineView>, row: nat)
    requires
        1 <= row <= lines.len(),
        lines[row - 1].pos < lines[row - 1].size(),
    ensures
        ({
            let cur = lines[row - 1];
            let moved = lines.update(row - 1, LineView { text: cur.text, pos: cur.pos + 1 });
            moved.update(
                row - 1,
                LineView { text: moved[row - 1].text, pos: (moved[row - 1].pos - 1) as nat },
            ) == lines
        }),
{
    let cur = lines[row - 1];
    let moved = lines.update(row - 1, LineView { text: cur.text, pos: cur.pos + 1 });
    assert(moved.update(
        row - 1,
        LineView { text: moved[row - 1].text, pos: (moved[row - 1].pos - 1) as nat },
    ) =~= lines);
}

/// The control keys ask for the same thing in either mode: Ctrl-L quits,
/// Ctrl-W saves, Ctrl-P previews, Ctrl-A switches move mode, Ctrl-B and Ctrl-E
/// go to the line's start and end, Escape starts an arrow key, Enter breaks
/// the line and Backspace or Ctrl-X deletes.
pub proof fn law_control_keys_ignore_move_mode(c: char, move_mode: bool)
    ensures
        c as int == 12 ==> spec_command_for(c, move_mode) == Command::Quit,
        c as int == 23 ==> spec_command_for(c, move_mode) == Command::Save,
        c as int == 16 ==> spec_command_for(c, move_mode) == Command::Preview,
        c as int == 1 ==> spec_command_for(c, move_mode) == Command::ToggleMoveMode,
        c as int == 2 ==> spec_command_for(c, move_mode) == Command::LineStart,
        c as int == 5 ==> spec_command_for(c, move_mode) == Command::LineEnd,
        c as int == 27 ==> spec_command_for(c, move_mode) == Command::Arrow,
        c as int == 10 ==> spec_command_for(c, move_mode) == Command::NewLine,
        c as int == 127 || c as int == 24 ==> spec_command_for(c, move_mode) == Command::Delete,
        !(32 <= c as int <= 126) ==> spec_command_for(c, true) == spec_command_for(c, false),
{
}

/// Outside move mode every printable key, the space included, is typed; in
/// move mode every printable key but `h`, `j`, `k` and `l` is. No other key is typed.
pub proof fn law_printable_keys_are_typed(c: char, move_mode: bool)
    ensures
        32 <= c as int <= 126 && !(move_mode && (c == 'h' || c == 'j' || c == 'k' || c == 'l'))
            ==> spec_command_for(c, move_mode) == Command::Type(c),
        !(32 <= c as int <= 126) ==> spec_command_for(c, move_mode) != Command::Type(c),
        is_typed(c) <==> ' ' <= c <= '~',
{
}

/// A text of no bytes has no characters.
proof fn lemma_no_bytes_no_chars(t: Seq<char>)
    requires
        byte_len(t) == 0,
    ensures
        t.len() == 0,
{
    lemma_byte_len_take_mono(t, 0, t.len() as int);
    assert(t.take(t.len() as int) =~= t);
}

/// Backspace at the start of an empty row other than the first takes that row
/// out, wherever it stands, and with it the line break before it in the saved text.
pub proof fn law_backspace_removes_empty_row(lines: Seq<LineView>, row: nat)
    requires
        2 <= row <= lines.len(),
        lines[row - 1].pos == 0,
        lines[row - 1].size() == 0,
    ensures
        backed_up(lines, row) == lines.remove(row - 1),
        join_lines(texts(backed_up(lines, row))) == join_lines(texts(lines)).remove(
            cursor_offset(lines, row) - 1,
        ),
{
    let i = row - 1;
    let t = texts(lines);
    lemma_no_bytes_no_chars(lines[i].text);
    assert(t[i] =~= Seq::<char>::empty());
    lemma_boundary_bounds(lines[i].text, 0);
    assert(texts(lines.remove(i)) =~= t.take(i) + t.skip(i + 1));
    lemma_join_lines_split_at(t, i);
    let front = join_lines(t.take(i));
    if i + 1 < t.len() {
        lemma_join_lines_concat(t.take(i), t.skip(i + 1));
        assert(join_lines(t) =~= front + seq!['\n'] + seq!['\n'] + join_lines(t.skip(i + 1)));
        assert(join_lines(texts(lines.remove(i))) =~= join_lines(t).remove(front.len() as int));
    } else {
        assert(t.take(i) + t.skip(i + 1) =~= t.take(i));
        assert(join_lines(t) =~= front + seq!['\n']);
        assert(join_lines(texts(lines.remove(i))) =~= join_lines(t).remove(front.len() as int));
    }
}

/// The number of newlines in `s`.
pub open spec fn newline_count(s: Seq<char>) -> nat
    decreases s.len(),
{
    if s.len() == 0 {
        0
    } else {
        newline_count(s.drop_last()) + if s.last() == '\n' {
            1nat
        } else {
            0nat
        }
    }
}

/// Whether `t` holds no newline.
pub open spec fn no_newline(t: Seq<char>) -> bool {
    forall|j: int| 0 <= j < t.len() ==> t[j] != '\n'
}

/// Splitting a text at its newlines gives one more piece than it has
/// newlines, none of them holding a newline, and joining them gives the text back.
pub proof fn law_split_cuts_at_every_newline(s: Seq<char>)
    ensures
        split_lines(s).len() == newline_count(s) + 1,
        forall|k: int| 0 <= k < split_lines(s).len() ==> no_newline(#[trigger] split_lines(s)[k]),
        join_lines(split_lines(s)) == s,
    decreases s.len(),
{
    lemma_join_split_lines(s);
    if s.len() > 0 {
        let rest = split_lines(s.drop_last());
        law_split_cuts_at_every_newline(s.drop_last());
        lemma_split_lines_nonempty(s.drop_last());
        if s.last() == '\n' {
            assert forall|k: int| 0 <= k < split_lines(s).len() implies no_newline(
                #[trigger] split_lines(s)[k],
            ) by {
                if k < rest.len() {
                    assert(split_lines(s)[k] == rest[k]);
                }
            }
        } else {
            assert forall|k: int| 0 <= k < split_lines(s).len() implies no_newline(
                #[trigger] split_lines(s)[k],
            ) by {
                if k < rest.len() - 1 {
                    assert(split_lines(s)[k] == rest[k]);
                } else {
                    let last = rest.last();
                    assert(no_newline(rest[rest.len() - 1]));
                    let p = last.push(s.last());
                    assert(split_lines(s)[k] == p);
                    assert forall|j: int| 0 <= j < p.len() implies p[j] != '\n' by {
                        if j < last.len() {
                            assert(p[j] == last[j]);
                        }
                    }
                }
            }
        }
    }
}

/// Loading a file gives one line for each piece of its text (without trailing
/// white space) between newlines: one more line than the text has newlines,
/// none holding a newline, each with its cursor after its last byte.
pub proof fn law_load_cuts_at_every_newline(contents: Seq<char>)
    ensures
        loaded_lines(contents).len() == newline_count(trim_end(contents)) + 1,
        forall|k: int|
            0 <= k < loaded_lines(contents).len() ==> no_newline(
                #[trigger] loaded_lines(contents)[k].text,
            ) && loaded_lines(contents)[k].pos == byte_len(loaded_lines(contents)[k].text),
        join_lines(texts(loaded_lines(contents))) == trim_end(contents),
{
    let t = trim_end(contents);
    law_split_cuts_at_every_newline(t);
    assert forall|k: int| 0 <= k < loaded_lines(contents).len() implies no_newline(
        #[trigger] loaded_lines(contents)[k].text,
    ) && loaded_lines(contents)[k].pos == byte_len(loaded_lines(contents)[k].text) by {
        assert(loaded_lines(contents)[k].text == split_lines(t)[k]);
    }
    law_load_then_join(contents);
}

/// Drawing a screenful from row `start` draws as many rows as fit: it stops at
/// the document's last line or once the screen's rows are full, whichever
/// comes first, and never goes past either.
pub proof fn law_print_all_fills_the_screen(len: nat, start: nat, row_sz: nat)
    requires
        1 <= start <= len,
        row_sz >= 1,
    ensures
        ({
            let n = lines_before_last(len, start, row_sz);
            &&& start + n <= len
            &&& n + 1 <= row_sz
            &&& (start + n == len || n + 1 == row_sz)
        }),
{
}

} // verus!
