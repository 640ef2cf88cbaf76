//! One line of the document and the cursor position within it.

pub mod list;

use vstd::prelude::*;
use crate::text::{
    byte_len, char_index, char_index_exec, char_width, char_width_exec, chars_of,
    lemma_boundary_char_index, lemma_byte_len_subrange, lemma_char_index_boundary,
    lemma_encode_concat, on_boundary,
};

verus! {

/// What a line holds: its characters, and the cursor as a byte offset into
/// the line's UTF-8 encoding (0 is before the first byte).
pub struct LineView {
    pub text: Seq<char>,
    pub pos: nat,
}

/// A line of text with the position of the cursor in it. The cursor is a
/// byte offset, as into a `String`; `len` is the line's length in bytes.
pub struct Line {
    pos: usize,
    text: Vec<char>,
    len: usize,
}

impl Line {
    /// The byte length kept beside the text is that of its encoding.
    #[verifier::type_invariant]
    spec fn len_is_byte_len(self) -> bool {
        self.len as nat == byte_len(self.text@)
    }
}

impl LineView {
    /// The line's length in bytes.
    pub open spec fn size(self) -> nat {
        byte_len(self.text)
    }

    /// How many characters stand before the cursor.
    pub open spec fn cursor_index(self) -> nat {
        char_index(self.text, self.pos as int)
    }

    /// Whether the cursor is at a character boundary.
    pub open spec fn at_boundary(self) -> bool {
        on_boundary(self.text, self.pos as int)
    }

    /// The characters before the cursor.
    pub open spec fn before(self) -> Seq<char> {
        self.text.subrange(0, self.cursor_index() as int)
    }

    /// The characters from the cursor on.
    pub open spec fn after(self) -> Seq<char> {
        self.text.subrange(self.cursor_index() as int, self.text.len() as int)
    }
}

impl View for Line {
    type V = LineView;

    closed spec fn view(&self) -> LineView {
        LineView { text: self.text@, pos: self.pos as nat }
    }
}

impl Line {
    /// A line holding `str`, with the cursor after its last byte.
    pub fn new(str: String) -> (line: Line)
        ensures
            line@.text == str@,
            line@.pos == byte_len(str@),
    {
        let len = str.as_str().as_bytes().len();
        let text = chars_of(str.as_str());
        Line { pos: len, text, len }
    }

    /// An empty line.
    pub fn new_empty() -> (line: Line)
        ensures
            line@.text == Seq::<char>::empty(),
            line@.pos == 0,
    {
        assert(crate::text::encode_utf8_empty());
        Line { pos: 0, text: Vec::new(), len: 0 }
    }

    /// Inserts `c` at the cursor, which must be at a character boundary, and
    /// moves the cursor one byte on (into `c` when `c` takes more than one byte).
    pub fn add(&mut self, c: char)
        requires
            on_boundary(old(self)@.text, old(self)@.pos as int),
            byte_len(old(self)@.text) + char_width(c) <= usize::MAX,
        ensures
            final(self)@.text == old(self)@.text.insert(
                char_index(old(self)@.text, old(self)@.pos as int) as int,
                c,
            ),
            final(self)@.pos == old(self)@.pos + 1,
            final(self)@.size() == old(self)@.size() + char_width(c),
    {
        let mut line = Line::new_empty();
        std::mem::swap(self, &mut line);
        proof {
            use_type_invariant(&line);
        }
        let Line { pos, mut text, len } = line;
        let ghost t = text@;
        let k = match char_index_exec(&text, pos) {
            Some(k) => k,
            None => {
                assert(false);
                0
            },
        };
        let w = char_width_exec(c);
        text.insert(k, c);
        proof {
            lemma_byte_len_subrange(t, k as int, k as int);
            lemma_encode_concat(t.take(k as int), seq![c]);
            lemma_encode_concat(t.take(k as int) + seq![c], t.subrange(k as int, t.len() as int));
            assert(t.take(k as int) + seq![c] + t.subrange(k as int, t.len() as int) =~= text@);
            crate::text::lemma_byte_len_single(c);
            lemma_boundary_char_index(t, pos as int);
        }
        *self = Line { pos: pos + 1, text, len: len + w };
    }

    /// Deletes the character that starts one byte before the cursor (all of its
    /// bytes) and moves the cursor one byte back.
    pub fn remove(&mut self)
        requires
            1 <= old(self)@.pos,
            old(self)@.pos - 1 < byte_len(old(self)@.text),
            on_boundary(old(self)@.text, old(self)@.pos - 1),
        ensures
            final(self)@.text == old(self)@.text.remove(
                char_index(old(self)@.text, old(self)@.pos - 1) as int,
            ),
            final(self)@.pos == old(self)@.pos - 1,
            final(self)@.pos <= final(self)@.size(),
    {
        let mut line = Line::new_empty();
        std::mem::swap(self, &mut line);
        proof {
            use_type_invariant(&line);
        }
        let Line { pos, mut text, len } = line;
        let ghost t = text@;
        let k = match char_index_exec(&text, pos - 1) {
            Some(k) => k,
            None => {
                assert(false);
                0
            },
        };
        proof {
            lemma_byte_len_subrange(t, k as int, k as int);
            if k == t.len() {
                assert(t.take(k as int) =~= t);
            }
        }
        let c = text.remove(k);
        let w = char_width_exec(c);
        proof {
            lemma_byte_len_subrange(t, k as int, k + 1);
            crate::text::lemma_byte_len_single(c);
            assert(t.subrange(k as int, k + 1) =~= seq![c]);
            lemma_encode_concat(t.take(k as int), t.subrange(k + 1, t.len() as int));
            assert(t.take(k as int) + t.subrange(k + 1, t.len() as int) =~= text@);
        }
        *self = Line { pos: pos - 1, text, len: len - w };
    }

    /// The number of bytes in the line.
    pub fn len(&self) -> (n: usize)
        ensures
            n == byte_len(self@.text),
    {
        proof {
            use_type_invariant(self);
        }
        self.len
    }

    /// The cursor's byte offset.
    pub fn pos(&self) -> (p: usize)
        ensures
            p == self@.pos,
    {
        self.pos
    }

    /// Places the cursor at byte offset `pos`.
    pub fn set_pos(&mut self, pos: usize)
        ensures
            final(self)@.text == old(self)@.text,
            final(self)@.pos == pos,
    {
        proof {
            use_type_invariant(&*self);
        }
        self.pos = pos;
    }

    /// The characters of the line.
    pub fn chars(&self) -> (t: &Vec<char>)
        ensures
            t@ == self@.text,
    {
        &self.text
    }

    /// Cuts the characters from index `from` up to index `to` out of the line
    /// and leaves the cursor at byte offset `pos`.
    pub fn cut(&mut self, from: usize, to: usize, pos: usize)
        requires
            from <= to <= old(self)@.text.len(),
        ensures
            final(self)@.text == old(self)@.text.subrange(0, from as int) + old(self)@.text.subrange(
                to as int,
                old(self)@.text.len() as int,
            ),
            final(self)@.pos == pos,
    {
        let mut line = Line::new_empty();
        std::mem::swap(self, &mut line);
        proof {
            use_type_invariant(&line);
        }
        let Line { pos: _, text, len } = line;
        let ghost t = text@;
        let mut kept: Vec<char> = Vec::new();
        let mut i: usize = 0;
        while i < from
            invariant
                i <= from <= to <= t.len(),
                t == text@,
                kept@ == t.subrange(0, i as int),
            decreases from - i,
        {
            kept.push(text[i]);
            i = i + 1;
            assert(kept@ =~= t.subrange(0, i as int));
        }
        let mut j: usize = to;
        while j < text.len()
            invariant
                from <= to <= j <= t.len(),
                t == text@,
                kept@ == t.subrange(0, from as int) + t.subrange(to as int, j as int),
            decreases t.len() - j,
        {
            kept.push(text[j]);
            j = j + 1;
            assert(kept@ =~= t.subrange(0, from as int) + t.subrange(to as int, j as int));
        }
        proof {
            lemma_byte_len_subrange(t, from as int, to as int);
            lemma_encode_concat(t.subrange(0, from as int), t.subrange(to as int, t.len() as int));
            assert(t.subrange(0, from as int) =~= t.take(from as int));
        }
        let new_len = len - byte_len_of_cut(&text, from, to);
        *self = Line { pos, text: kept, len: new_len };
    }
}

/// The number of bytes of the characters from index `from` up to index `to`.
fn byte_len_of_cut(text: &Vec<char>, from: usize, to: usize) -> (n: usize)
    requires
        from <= to <= text@.len(),
        byte_len(text@) <= usize::MAX,
    ensures
        n == byte_len(text@.subrange(from as int, to as int)),
{
    let mut n: usize = 0;
    let mut i = from;
    proof {
        lemma_byte_len_subrange(text@, from as int, to as int);
        assert(text@.subrange(from as int, from as int) =~= Seq::<char>::empty());
        assert(crate::text::encode_utf8_empty());
    }
    while i < to
        invariant
            from <= i <= to <= text@.len(),
            n == byte_len(text@.subrange(from as int, i as int)),
            byte_len(text@.subrange(from as int, to as int)) <= usize::MAX,
        decreases to - i,
    {
        proof {
            let s = text@.subrange(from as int, to as int);
            crate::text::lemma_byte_len_take_step(s, i - from);
            assert(s.take(i - from) =~= text@.subrange(from as int, i as int));
            assert(s.take(i - from + 1) =~= text@.subrange(from as int, i + 1));
            lemma_byte_len_subrange(s, 0, i - from + 1);
            assert(s.subrange(0, i - from + 1) =~= s.take(i - from + 1));
        }
        n = n + char_width_exec(text[i]);
        i = i + 1;
    }
    n
}

} // verus!
