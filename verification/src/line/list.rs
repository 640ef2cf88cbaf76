//! The document: its lines, the cursor's row and the first row on screen.

use vstd::prelude::*;
use super::{Line, LineView};
use crate::terminal::Terminal;
use crate::text::{
    byte_len, char_index, char_index_exec, char_width, chars_of, decimal, decimal_len, join_lines,
    lemma_ascii_byte_len, lemma_ascii_subrange, lemma_char_width, lemma_cut_between_boundaries,
    lemma_decimal_len_monotone, lemma_insert_at_boundary, on_boundary, push_decimal, push_spaces,
    push_str, spaces, split_lines, split_lines_exec, string_from_chars, trim_end, trim_end_len,
};
use vstd::utf8::is_ascii_chars;

verus! {

/// The texts of the given lines.
pub open spec fn texts(lines: Seq<LineView>) -> Seq<Seq<char>> {
    lines.map_values(|l: LineView| l.text)
}

/// The lines of a file's contents: its text without trailing white space,
/// cut at each newline, each line with its cursor after its last byte.
pub open spec fn loaded_lines(contents: Seq<char>) -> Seq<LineView> {
    split_lines(trim_end(contents)).map_values(|t: Seq<char>| LineView { text: t, pos: byte_len(t) })
}

/// Whether a line is all ASCII, with its cursor within it.
pub open spec fn ascii_line(l: LineView) -> bool {
    is_ascii_chars(l.text) && l.pos <= l.text.len()
}

/// The cursor offsets of the given lines.
pub open spec fn cursor_columns(lines: Seq<LineView>) -> Seq<nat> {
    lines.map_values(|l: LineView| l.pos)
}

/// Whether the on-screen column of the cursor at `cols[i]`, which is that
/// position plus the width of the largest row number and five, fits in a `usize`.
pub open spec fn col_fits(cols: Seq<nat>, i: int) -> bool {
    cols[i] + decimal(cols.len()).len() + 5 <= usize::MAX
}

/// Whether the on-screen column of the cursor on line `i` (row `i + 1`) fits in a `usize`.
pub open spec fn column_fits(lines: Seq<LineView>, i: int) -> bool {
    col_fits(cursor_columns(lines), i)
}

/// What `print_line` draws for row `row` (1-based) on a screen `max_cols` wide:
/// it blanks the text area, writes the row number right-aligned to the width of
/// the largest row number, then the text, and puts the cursor on its column.
pub open spec fn line_display(lines: Seq<LineView>, row: nat, max_cols: nat) -> Seq<char> {
    let rowc = decimal(row).len();
    let padding = (decimal(lines.len()).len() - rowc) as nat;
    "\r\x1b[3C"@ + spaces((max_cols - 6) as nat) + "\r\x1b[3C"@ + spaces(padding) + "\x1b[1;35m"@
        + decimal(row) + "\x1b[0m "@ + lines[row - 1].text + "\r\x1b["@ + decimal(
        lines[row - 1].pos + rowc + padding + 5,
    ) + "G"@
}

/// What the compact line drawing gives for row `row`: the line cleared, the
/// row number, a space and the text, and the cursor put on its column.
pub open spec fn bare_line_display(lines: Seq<LineView>, row: nat) -> Seq<char> {
    "\x1b[2K\r"@ + decimal(row) + " "@ + lines[row - 1].text + "\r\x1b["@ + decimal(
        lines[row - 1].pos + decimal(row).len() + 2,
    ) + "G"@
}

/// Whether the compact drawing of row `row` can place the cursor: its
/// column, the position plus the row number's width and two, fits in a `usize`.
pub open spec fn bare_column_fits(lines: Seq<LineView>, row: nat) -> bool {
    lines[row - 1].pos + decimal(row).len() + 2 <= usize::MAX
}

/// How many lines `print_all` draws, starting at row `start`, before the last one:
/// all that follow, but no more than the screen's rows less one.
pub open spec fn lines_before_last(len: nat, start: nat, row_sz: nat) -> nat {
    let rest = (len - start) as nat;
    if rest == 0 {
        0
    } else if rest <= row_sz - 1 {
        rest
    } else {
        (row_sz - 1) as nat
    }
}

/// Rows `start` to `start + k - 1`, each drawn and followed by a newline.
pub open spec fn rows_display(lines: Seq<LineView>, start: nat, k: nat, max_cols: nat) -> Seq<
    char,
>
    decreases k,
{
    if k == 0 {
        Seq::<char>::empty()
    } else {
        rows_display(lines, start, (k - 1) as nat, max_cols) + line_display(
            lines,
            (start + k - 1) as nat,
            max_cols,
        ) + "\n"@
    }
}

/// What `print_all` draws from row `start`: a screenful of rows, each on its own line.
pub open spec fn all_display(lines: Seq<LineView>, start: nat, term: Terminal) -> Seq<char> {
    let n = lines_before_last(lines.len(), start, term.row_sz as nat);
    rows_display(lines, start, n, term.col_sz as nat) + line_display(
        lines,
        start + n,
        term.col_sz as nat,
    )
}

/// What `print_all` needs, of lines whose cursor columns are `cols`, to
/// draw from row `start` without failing.
pub open spec fn cols_can_print_all(cols: Seq<nat>, start: nat, term: Terminal) -> bool {
    let n = lines_before_last(cols.len(), start, term.row_sz as nat);
    &&& 1 <= start <= cols.len()
    &&& start < cols.len() ==> term.row_sz >= 1
    &&& term.col_sz >= 6
    &&& forall|i: int| start - 1 <= i <= start - 1 + n ==> #[trigger] col_fits(cols, i)
}

/// What `print_all` needs to draw from row `start` without failing.
pub open spec fn can_print_all(lines: Seq<LineView>, start: nat, term: Terminal) -> bool {
    cols_can_print_all(cursor_columns(lines), start, term)
}

/// Cursor columns as natural numbers.
pub open spec fn nat_cols(cols: Seq<usize>) -> Seq<nat> {
    cols.map_values(|x: usize| x as nat)
}

/// Tests `col_fits` on the columns `cols`.
pub fn col_fits_exec(cols: &Vec<usize>, i: usize) -> (b: bool)
    requires
        i < cols@.len(),
    ensures
        b == col_fits(nat_cols(cols@), i as int),
{
    let digits = decimal_len(cols.len());
    cols[i] <= usize::MAX - digits - 5
}

/// How many lines `print_all` draws before the last one.
pub fn lines_before_last_exec(len: usize, start: usize, row_sz: usize) -> (n: usize)
    requires
        start <= len,
        start < len ==> row_sz >= 1,
    ensures
        n == lines_before_last(len as nat, start as nat, row_sz as nat),
{
    let rest = len - start;
    if rest == 0 {
        0
    } else if rest <= row_sz - 1 {
        rest
    } else {
        row_sz - 1
    }
}

/// Tests `cols_can_print_all` on the columns `cols`.
pub fn cols_can_print_all_exec(cols: &Vec<usize>, start: usize, term: &Terminal) -> (b: bool)
    ensures
        b == cols_can_print_all(nat_cols(cols@), start as nat, *term),
{
    let ghost c = nat_cols(cols@);
    let len = cols.len();
    if !(1 <= start && start <= len) || (start < len && term.row_sz < 1) || term.col_sz < 6 {
        return false;
    }
    let n = lines_before_last_exec(len, start, term.row_sz);
    let mut i = start - 1;
    while i <= start - 1 + n
        invariant
            c == nat_cols(cols@),
            len == cols@.len(),
            1 <= start <= len,
            n == lines_before_last(len as nat, start as nat, term.row_sz as nat),
            start - 1 + n < len,
            start - 1 <= i <= start + n,
            forall|k: int| start - 1 <= k < i ==> #[trigger] col_fits(c, k),
        decreases start + n - i,
    {
        if !col_fits_exec(cols, i) {
            return false;
        }
        i = i + 1;
    }
    true
}

/// The lines of the document, the row the cursor is on and the first row shown.
/// The field of lines is public so that contracts elsewhere can speak of the rows.
pub struct LineList {
    pub top_row: usize,
    pub row: usize,
    pub e: Vec<Line>,
}

impl View for LineList {
    type V = Seq<LineView>;

    open spec fn view(&self) -> Seq<LineView> {
        self.e@.map_values(|l: Line| l@)
    }
}

impl LineList {
    /// Whether `row` (1-based) names a line.
    pub open spec fn row_ok(&self) -> bool {
        1 <= self.row <= self@.len()
    }

    /// The line the cursor is on.
    pub open spec fn cur(&self) -> LineView {
        self@[self.row - 1]
    }

    /// Whether the cursor's row names a line and the cursor is at a character boundary of it.
    pub open spec fn cursor_ok(&self) -> bool {
        &&& self.row_ok()
        &&& self.cur().at_boundary()
    }

    /// The cursor offset of each line.
    pub fn columns(&self) -> (cols: Vec<usize>)
        ensures
            nat_cols(cols@) == cursor_columns(self@),
    {
        let mut cols: Vec<usize> = Vec::new();
        let n = self.e.len();
        let mut i: usize = 0;
        while i < n
            invariant
                n == self@.len(),
                i <= n,
                cols@.len() == i,
                nat_cols(cols@) == cursor_columns(self@).take(i as int),
            decreases n - i,
        {
            let p = self.e[i].pos();
            assert(self@[i as int].pos == p);
            cols.push(p);
            i = i + 1;
            assert(nat_cols(cols@) =~= cursor_columns(self@).take(i as int));
        }
        assert(cursor_columns(self@).take(n as int) =~= cursor_columns(self@));
        cols
    }

    /// Whether the cursor's row names a line and every line's cursor lies within its line.
    pub open spec fn well_placed(&self) -> bool {
        &&& self.row_ok()
        &&& forall|i: int| 0 <= i < self@.len() ==> #[trigger] self@[i].pos <= self@[i].size()
    }

    /// Whether the cursor's row names a line and every line is ASCII with its
    /// cursor within it.
    pub open spec fn ascii_placed(&self) -> bool {
        &&& self.row_ok()
        &&& forall|i: int| 0 <= i < self@.len() ==> #[trigger] ascii_line(self@[i])
    }

    /// An empty document with the cursor and the screen on row 1.
    pub fn new() -> (list: LineList)
        ensures
            list@ == Seq::<LineView>::empty(),
            list.top_row == 1,
            list.row == 1,
    {
        let list = LineList { top_row: 1, row: 1, e: Vec::new() };
        assert(list@ =~= Seq::<LineView>::empty());
        list
    }

    /// Appends `line` after the last line.
    pub fn new_line(&mut self, line: Line)
        ensures
            final(self)@ == old(self)@.push(line@),
            final(self).row == old(self).row,
            final(self).top_row == old(self).top_row,
    {
        self.e.push(line);
        assert(self@ =~= old(self)@.push(line@));
    }

    /// Inserts `line` so that it becomes the line at index `i` (row `i + 1`).
    pub fn insert_line(&mut self, i: usize, line: Line)
        requires
            i <= old(self)@.len(),
        ensures
            final(self)@ == old(self)@.insert(i as int, line@),
            final(self).row == old(self).row,
            final(self).top_row == old(self).top_row,
    {
        self.e.insert(i, line);
        assert(self@ =~= old(self)@.insert(i as int, line@));
    }

    /// Deletes the line the cursor is on; the cursor's row number stays as it was.
    pub fn remove_line(&mut self)
        requires
            old(self).row_ok(),
        ensures
            final(self)@ == old(self)@.remove(old(self).row - 1),
            final(self).row == old(self).row,
            final(self).top_row == old(self).top_row,
    {
        self.e.remove(self.row - 1);
        assert(self@ =~= old(self)@.remove(old(self).row - 1));
    }

    /// The number of bytes on the cursor's line.
    pub fn line_length(&self) -> (n: usize)
        requires
            self.row_ok(),
        ensures
            n == self.cur().size(),
    {
        self.e[self.row - 1].len()
    }

    /// The number of lines.
    pub fn line_count(&self) -> (n: usize)
        ensures
            n == self@.len(),
    {
        self.e.len()
    }

    /// Inserts `c` at the cursor, which must be at a character boundary, and
    /// moves the cursor one byte on.
    pub fn add(&mut self, c: char)
        requires
            old(self).cursor_ok(),
            old(self).cur().size() + char_width(c) <= usize::MAX,
        ensures
            final(self)@ == old(self)@.update(
                old(self).row - 1,
                LineView {
                    text: old(self).cur().text.insert(old(self).cur().cursor_index() as int, c),
                    pos: old(self).cur().pos + 1,
                },
            ),
            final(self).cur().size() == old(self).cur().size() + char_width(c),
            final(self).row == old(self).row,
            final(self).top_row == old(self).top_row,
    {
        let r = self.row - 1;
        self.e[r].add(c);
        assert(self@ =~= old(self)@.update(
            old(self).row - 1,
            LineView {
                text: old(self).cur().text.insert(old(self).cur().cursor_index() as int, c),
                pos: old(self).cur().pos + 1,
            },
        ));
    }

    /// Deletes the character that starts one byte before the cursor and moves
    /// the cursor one byte back.
    pub fn remove(&mut self)
        requires
            old(self).row_ok(),
            1 <= old(self).cur().pos,
            old(self).cur().pos - 1 < old(self).cur().size(),
            on_boundary(old(self).cur().text, old(self).cur().pos - 1),
        ensures
            final(self)@ == old(self)@.update(
                old(self).row - 1,
                LineView {
                    text: old(self).cur().text.remove(
                        char_index(old(self).cur().text, old(self).cur().pos - 1) as int,
                    ),
                    pos: (old(self).cur().pos - 1) as nat,
                },
            ),
            final(self).cur().pos <= final(self).cur().size(),
            final(self).row == old(self).row,
            final(self).top_row == old(self).top_row,
    {
        let r = self.row - 1;
        self.e[r].remove();
        assert(self@ =~= old(self)@.update(
            old(self).row - 1,
            LineView {
                text: old(self).cur().text.remove(
                    char_index(old(self).cur().text, old(self).cur().pos - 1) as int,
                ),
                pos: (old(self).cur().pos - 1) as nat,
            },
        ));
    }

    /// The cursor's byte offset on its line.
    pub fn current_pos(&self) -> (p: usize)
        requires
            self.row_ok(),
        ensures
            p == self.cur().pos,
    {
        self.e[self.row - 1].pos()
    }

    /// Moves the cursor `pos` bytes back (`subtract`) or forward on its line.
    pub fn set_pos_relative(&mut self, pos: usize, subtract: bool)
        requires
            old(self).row_ok(),
            subtract ==> pos <= old(self).cur().pos,
            !subtract ==> old(self).cur().pos + pos <= usize::MAX,
        ensures
            final(self)@ == old(self)@.update(
                old(self).row - 1,
                LineView {
                    text: old(self).cur().text,
                    pos: (if subtract {
                        old(self).cur().pos - pos
                    } else {
                        old(self).cur().pos + pos
                    }) as nat,
                },
            ),
            final(self).row == old(self).row,
            final(self).top_row == old(self).top_row,
    {
        let r = self.row - 1;
        let p = self.e[r].pos();
        if subtract {
            self.e[r].set_pos(p - pos);
        } else {
            self.e[r].set_pos(p + pos);
        }
        assert(self@ =~= old(self)@.update(
            old(self).row - 1,
            LineView {
                text: old(self).cur().text,
                pos: (if subtract {
                    old(self).cur().pos - pos
                } else {
                    old(self).cur().pos + pos
                }) as nat,
            },
        ));
    }

    /// Moves the cursor to the start of its line.
    pub fn reset_line_pos(&mut self)
        requires
            old(self).row_ok(),
        ensures
            final(self)@ == old(self)@.update(
                old(self).row - 1,
                LineView { text: old(self).cur().text, pos: 0 },
            ),
            final(self).row == old(self).row,
            final(self).top_row == old(self).top_row,
    {
        let r = self.row - 1;
        self.e[r].set_pos(0);
        assert(self@ =~= old(self)@.update(
            old(self).row - 1,
            LineView { text: old(self).cur().text, pos: 0 },
        ));
    }

    /// Cuts the bytes from `start` up to `end` out of the cursor's line and
    /// returns them; the cursor is left at `start`. Both must be character
    /// boundaries, and what lies between them ASCII, one byte a character.
    pub fn remove_chunk(&mut self, start: usize, end: usize) -> (chunk: String)
        requires
            old(self).row_ok(),
            start <= end,
            on_boundary(old(self).cur().text, start as int),
            on_boundary(old(self).cur().text, end as int),
            is_ascii_chars(
                old(self).cur().text.subrange(
                    char_index(old(self).cur().text, start as int) as int,
                    char_index(old(self).cur().text, end as int) as int,
                ),
            ),
        ensures
            chunk@ == old(self).cur().text.subrange(
                char_index(old(self).cur().text, start as int) as int,
                char_index(old(self).cur().text, end as int) as int,
            ),
            final(self)@ == old(self)@.update(
                old(self).row - 1,
                LineView {
                    text: old(self).cur().text.subrange(
                        0,
                        char_index(old(self).cur().text, start as int) as int,
                    ) + old(self).cur().text.subrange(
                        char_index(old(self).cur().text, end as int) as int,
                        old(self).cur().text.len() as int,
                    ),
                    pos: start as nat,
                },
            ),
            final(self).row == old(self).row,
            final(self).top_row == old(self).top_row,
    {
        let r = self.row - 1;
        let ghost t = old(self).cur().text;
        proof {
            lemma_cut_between_boundaries(t, start as int, end as int);
        }
        let ks = match char_index_exec(self.e[r].chars(), start) {
            Some(k) => k,
            None => {
                assert(false);
                0
            },
        };
        let ke = match char_index_exec(self.e[r].chars(), end) {
            Some(k) => k,
            None => {
                assert(false);
                0
            },
        };
        let mut piece: Vec<char> = Vec::new();
        let mut i = ks;
        while i < ke
            invariant
                ks <= i <= ke <= t.len(),
                r == old(self).row - 1,
                self == old(self),
                self.row_ok(),
                t == self.cur().text,
                piece@ == t.subrange(ks as int, i as int),
            decreases ke - i,
        {
            piece.push(self.e[r].chars()[i]);
            i = i + 1;
        }
        let chunk = string_from_chars(&piece);
        self.e[r].cut(ks, ke, start);
        assert(self@ =~= old(self)@.update(
            old(self).row - 1,
            LineView {
                text: t.subrange(0, ks as int) + t.subrange(ke as int, t.len() as int),
                pos: start as nat,
            },
        ));
        chunk
    }

    /// The whole text: the lines with a newline between each two.
    pub fn join(&self) -> (s: String)
        ensures
            s@ == join_lines(texts(self@)),
    {
        let ghost all = texts(self@);
        let mut out: Vec<char> = Vec::new();
        let n = self.e.len();
        let mut i: usize = 0;
        while i < n
            invariant
                n == self@.len(),
                all == texts(self@),
                i <= n,
                out@ == join_lines(all.take(i as int)),
            decreases n - i,
        {
            let ghost before = out@;
            if i > 0 {
                out.push('\n');
            }
            let line = self.e[i].chars();
            let m = line.len();
            let mut j: usize = 0;
            while j < m
                invariant
                    m == line@.len(),
                    j <= m,
                    i < n,
                    out@ == before + (if i > 0 { seq!['\n'] } else { Seq::<char>::empty() })
                        + line@.subrange(0, j as int),
                decreases m - j,
            {
                out.push(line[j]);
                j = j + 1;
            }
            assert(all.take(i + 1).drop_last() =~= all.take(i as int));
            assert(line@ == all[i as int]);
            assert(line@.subrange(0, m as int) =~= line@);
            if i == 0 {
                assert(out@ =~= all.take(1)[0]);
            } else {
                assert(out@ =~= before + seq!['\n'] + all.take(i + 1).last());
            }
            i = i + 1;
        }
        assert(all.take(n as int) =~= all);
        string_from_chars(&out)
    }

    /// Adds the lines of a file: `Some(contents)` when the file could be read,
    /// whose text without trailing white space is cut at each newline into lines
    /// with the cursor at their ends, or `None`, which adds one empty line.
    pub fn load_from_file(&mut self, contents: Option<&str>)
        ensures
            final(self)@ == old(self)@ + match contents {
                Some(c) => loaded_lines(c@),
                None => seq![LineView { text: Seq::<char>::empty(), pos: 0 }],
            },
            final(self).row == old(self).row,
            final(self).top_row == old(self).top_row,
    {
        match contents {
            Some(c) => {
                let chars = chars_of(c);
                let n = trim_end_len(&chars);
                let pieces = split_lines_exec(&chars, n);
                let ghost want = loaded_lines(c@);
                let ghost start = self@;
                let mut i: usize = 0;
                while i < pieces.len()
                    invariant
                        i <= pieces@.len(),
                        chars@ == c@,
                        chars@.subrange(0, n as int) == trim_end(c@),
                        pieces@.len() == split_lines(chars@.subrange(0, n as int)).len(),
                        forall|k: int|
                            0 <= k < pieces@.len() ==> #[trigger] pieces@[k]@ == split_lines(
                                chars@.subrange(0, n as int),
                            )[k],
                        want == loaded_lines(c@),
                        self@ == start + want.take(i as int),
                        self.row == old(self).row,
                        self.top_row == old(self).top_row,
                        start == old(self)@,
                    decreases pieces@.len() - i,
                {
                    let text = string_from_chars(&pieces[i]);
                    assert(text@ == pieces@[i as int]@);
                    self.new_line(Line::new(text));
                    assert(start + want.take(i + 1) =~= (start + want.take(i as int)).push(want[i as int]));
                    i = i + 1;
                }
                assert(want.take(i as int) =~= want);
            },
            None => {
                self.new_line(Line::new_empty());
            },
        }
    }

    /// Appends what `print_line` draws to `out`.
    pub fn render_line(&self, max_cols: usize, out: &mut Vec<char>)
        requires
            self.row_ok(),
            max_cols >= 6,
            column_fits(self@, self.row - 1),
        ensures
            final(out)@ == old(out)@ + line_display(self@, self.row as nat, max_cols as nat),
    {
        proof {
            lemma_decimal_len_monotone(self.row as nat, self@.len());
        }
        let ghost start = out@;
        push_str(out, "\r\x1b[3C");
        push_spaces(out, max_cols - 6);
        push_str(out, "\r\x1b[3C");
        let rowc = decimal_len(self.row);
        let padding = decimal_len(self.e.len()) - rowc;
        push_spaces(out, padding);
        push_str(out, "\x1b[1;35m");
        push_decimal(out, self.row);
        push_str(out, "\x1b[0m ");
        let r = self.row - 1;
        let text = self.e[r].chars();
        let ghost before_text = out@;
        let m = text.len();
        let mut j: usize = 0;
        while j < m
            invariant
                m == text@.len(),
                j <= m,
                out@ == before_text + text@.subrange(0, j as int),
            decreases m - j,
        {
            out.push(text[j]);
            j = j + 1;
        }
        assert(text@.subrange(0, m as int) =~= text@);
        push_str(out, "\r\x1b[");
        let col = self.e[r].pos() + rowc + padding + 5;
        push_decimal(out, col);
        push_str(out, "G");
        assert(out@ =~= start + line_display(self@, self.row as nat, max_cols as nat));
    }

    /// Draws the cursor's line: the text area blanked, the row number right-aligned
    /// to the widest row number, the text, and the cursor put on its column.
    pub fn print_line(&self, max_cols: usize) -> (s: String)
        requires
            self.row_ok(),
            max_cols >= 6,
            column_fits(self@, self.row - 1),
        ensures
            s@ == line_display(self@, self.row as nat, max_cols as nat),
    {
        let mut out: Vec<char> = Vec::new();
        self.render_line(max_cols, &mut out);
        assert(out@ =~= line_display(self@, self.row as nat, max_cols as nat));
        string_from_chars(&out)
    }

    /// Appends the compact drawing of the cursor's line to `out`.
    pub fn render_line_bare(&self, out: &mut Vec<char>)
        requires
            self.row_ok(),
            bare_column_fits(self@, self.row as nat),
        ensures
            final(out)@ == old(out)@ + bare_line_display(self@, self.row as nat),
    {
        let ghost start = out@;
        push_str(out, "\x1b[2K\r");
        let row_digits = decimal_len(self.row);
        push_decimal(out, self.row);
        push_str(out, " ");
        let r = self.row - 1;
        let text = self.e[r].chars();
        let ghost before_text = out@;
        let m = text.len();
        let mut j: usize = 0;
        while j < m
            invariant
                m == text@.len(),
                j <= m,
                out@ == before_text + text@.subrange(0, j as int),
            decreases m - j,
        {
            out.push(text[j]);
            j = j + 1;
        }
        assert(text@.subrange(0, m as int) =~= text@);
        push_str(out, "\r\x1b[");
        let col = self.e[r].pos() + row_digits + 2;
        push_decimal(out, col);
        push_str(out, "G");
        assert(out@ =~= start + bare_line_display(self@, self.row as nat));
    }

    /// Draws the cursor's line compactly: the line cleared, the row number, a
    /// space and the text, and the cursor put on its column.
    pub fn print_line_bare(&self) -> (s: String)
        requires
            self.row_ok(),
            bare_column_fits(self@, self.row as nat),
        ensures
            s@ == bare_line_display(self@, self.row as nat),
    {
        let mut out: Vec<char> = Vec::new();
        self.render_line_bare(&mut out);
        assert(out@ =~= bare_line_display(self@, self.row as nat));
        string_from_chars(&out)
    }

    /// Appends what `print_all` draws to `out` and leaves the cursor on the last row drawn.
    pub fn render_all(&mut self, term: &Terminal, out: &mut Vec<char>)
        requires
            can_print_all(old(self)@, old(self).row as nat, *term),
        ensures
            final(out)@ == old(out)@ + all_display(old(self)@, old(self).row as nat, *term),
            final(self)@ == old(self)@,
            final(self).row == old(self).row + lines_before_last(
                old(self)@.len(),
                old(self).row as nat,
                term.row_sz as nat,
            ),
            final(self).top_row == old(self).top_row,
    {
        let ghost lines = self@;
        let ghost start = out@;
        let s = self.row;
        let n = self.e.len() - s;
        let mut i: usize = 0;
        while i < n && i != term.row_sz - 1
            invariant
                self@ == lines,
                self.top_row == old(self).top_row,
                can_print_all(lines, s as nat, *term),
                n == lines.len() - s,
                lines.len() == self.e@.len(),
                lines.len() <= usize::MAX,
                i <= n,
                n > 0 ==> i <= term.row_sz - 1,
                self.row == s + i,
                out@ == start + rows_display(lines, s as nat, i as nat, term.col_sz as nat),
            decreases n - i,
        {
            assert(column_fits(self@, self.row - 1));
            self.render_line(term.col_sz, out);
            self.row = self.row + 1;
            out.push('\n');
            i = i + 1;
            proof {
                reveal_strlit("\n");
            }
            assert(out@ =~= start + rows_display(lines, s as nat, i as nat, term.col_sz as nat));
        }
        assert(i == lines_before_last(lines.len(), s as nat, term.row_sz as nat));
        assert(column_fits(self@, self.row - 1));
        self.render_line(term.col_sz, out);
        assert(out@ =~= start + all_display(lines, s as nat, *term));
    }

    /// Draws a screenful of rows from the cursor's row down, each on its own
    /// line, and leaves the cursor on the last row drawn.
    pub fn print_all(&mut self, term: &Terminal) -> (s: String)
        requires
            can_print_all(old(self)@, old(self).row as nat, *term),
        ensures
            s@ == all_display(old(self)@, old(self).row as nat, *term),
            final(self)@ == old(self)@,
            final(self).row == old(self).row + lines_before_last(
                old(self)@.len(),
                old(self).row as nat,
                term.row_sz as nat,
            ),
            final(self).top_row == old(self).top_row,
    {
        let mut out: Vec<char> = Vec::new();
        self.render_all(term, &mut out);
        assert(out@ =~= all_display(old(self)@, old(self).row as nat, *term));
        string_from_chars(&out)
    }

    /// Appends what `print_all_from_top` draws to `out`.
    pub fn render_all_from_top(&mut self, term: &Terminal, out: &mut Vec<char>)
        requires
            can_print_all(old(self)@, old(self).top_row as nat, *term),
        ensures
            final(out)@ == old(out)@ + all_display(old(self)@, old(self).top_row as nat, *term),
            final(self)@ == old(self)@,
            final(self).row == old(self).row,
            final(self).top_row == old(self).top_row,
    {
        let current_row = self.row;
        self.row = self.top_row;
        self.render_all(term, out);
        self.row = current_row;
    }

    /// Draws a screenful of rows from the first row shown; the cursor stays on its row.
    pub fn print_all_from_top(&mut self, term: &Terminal) -> (s: String)
        requires
            can_print_all(old(self)@, old(self).top_row as nat, *term),
        ensures
            s@ == all_display(old(self)@, old(self).top_row as nat, *term),
            final(self)@ == old(self)@,
            final(self).row == old(self).row,
            final(self).top_row == old(self).top_row,
    {
        let mut out: Vec<char> = Vec::new();
        self.render_all_from_top(term, &mut out);
        assert(out@ =~= all_display(old(self)@, old(self).top_row as nat, *term));
        string_from_chars(&out)
    }

    /// Inserts the ASCII characters `chars` at the cursor, one after another,
    /// leaving the cursor after them.
    pub fn add_chars(&mut self, chars: &Vec<char>)
        requires
            old(self).cursor_ok(),
            is_ascii_chars(chars@),
            old(self).cur().size() + chars@.len() <= usize::MAX,
        ensures
            final(self)@ == old(self)@.update(
                old(self).row - 1,
                LineView {
                    text: old(self).cur().before() + chars@ + old(self).cur().after(),
                    pos: old(self).cur().pos + chars@.len(),
                },
            ),
            final(self).cur().at_boundary(),
            final(self).cur().size() == old(self).cur().size() + chars@.len(),
            final(self).row == old(self).row,
            final(self).top_row == old(self).top_row,
    {
        let ghost t = old(self).cur().text;
        let ghost p = old(self).cur().pos;
        let ghost k = old(self).cur().cursor_index();
        let n = chars.len();
        let mut i: usize = 0;
        proof {
            lemma_insert_at_boundary(t, p as int, Seq::<char>::empty());
            assert(crate::text::encode_utf8_empty());
            assert(t.subrange(0, k as int) + chars@.subrange(0, 0) + t.subrange(k as int, t.len() as int)
                =~= t);
        }
        assert(old(self)@ =~= old(self)@.update(
            old(self).row - 1,
            LineView { text: t, pos: p },
        ));
        while i < n
            invariant
                n == chars@.len(),
                i <= n,
                is_ascii_chars(chars@),
                byte_len(t) + n <= usize::MAX,
                on_boundary(t, p as int),
                k == char_index(t, p as int),
                k <= t.len(),
                t == old(self).cur().text,
                p == old(self).cur().pos,
                old(self).row_ok(),
                self.row == old(self).row,
                self.top_row == old(self).top_row,
                self.row_ok(),
                self@ == old(self)@.update(
                    old(self).row - 1,
                    LineView {
                        text: t.subrange(0, k as int) + chars@.subrange(0, i as int) + t.subrange(
                            k as int,
                            t.len() as int,
                        ),
                        pos: p + i as nat,
                    },
                ),
            decreases n - i,
        {
            let ghost m = chars@.subrange(0, i as int);
            proof {
                lemma_ascii_subrange(chars@, 0, i as int);
                lemma_ascii_byte_len(m);
                lemma_insert_at_boundary(t, p as int, m);
                lemma_char_width(chars@[i as int]);
            }
            let c = chars[i];
            self.add(c);
            assert((t.subrange(0, k as int) + m + t.subrange(k as int, t.len() as int)).insert(
                k + i,
                c,
            ) =~= t.subrange(0, k as int) + chars@.subrange(0, i + 1) + t.subrange(
                k as int,
                t.len() as int,
            ));
            i = i + 1;
            assert(self@ =~= old(self)@.update(
                old(self).row - 1,
                LineView {
                    text: t.subrange(0, k as int) + chars@.subrange(0, i as int) + t.subrange(
                        k as int,
                        t.len() as int,
                    ),
                    pos: p + i as nat,
                },
            ));
        }
        proof {
            lemma_ascii_byte_len(chars@);
            lemma_insert_at_boundary(t, p as int, chars@);
        }
        assert(chars@.subrange(0, n as int) =~= chars@);
    }
}

} // verus!
