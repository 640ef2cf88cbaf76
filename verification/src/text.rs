//! Character sequences: decimal numbers, string conversion and the
//! line splitting and joining that loading and saving a file rest on.

use vstd::prelude::*;
use vstd::string::*;
use vstd::utf8::*;

verus! {

/// The decimal digit for `d`, which is below ten.
pub open spec fn digit_char(d: nat) -> char {
    if d == 0 { '0' }
    else if d == 1 { '1' }
    else if d == 2 { '2' }
    else if d == 3 { '3' }
    else if d == 4 { '4' }
    else if d == 5 { '5' }
    else if d == 6 { '6' }
    else if d == 7 { '7' }
    else if d == 8 { '8' }
    else { '9' }
}

/// `n` written in decimal, without sign or leading zeros, as `format!("{}", n)` writes it.
pub open spec fn decimal(n: nat) -> Seq<char>
    decreases n,
{
    if n < 10 {
        seq![digit_char(n)]
    } else {
        decimal(n / 10).push(digit_char(n % 10))
    }
}

/// A number has at least one digit and, once it is at least ten, one more than its tenth.
pub proof fn lemma_decimal_len(n: nat)
    ensures
        decimal(n).len() >= 1,
        decimal(n).len() <= n + 1,
    decreases n,
{
    if n >= 10 {
        lemma_decimal_len(n / 10);
    }
}

/// A number has no more digits than half its value plus one.
pub proof fn lemma_decimal_len_half(n: nat)
    ensures
        decimal(n).len() <= n / 2 + 1,
    decreases n,
{
    if n >= 10 {
        lemma_decimal_len_half(n / 10);
    }
}

/// A larger number never has fewer digits.
pub proof fn lemma_decimal_len_monotone(m: nat, n: nat)
    requires
        m <= n,
    ensures
        decimal(m).len() <= decimal(n).len(),
    decreases n,
{
    lemma_decimal_len(m);
    lemma_decimal_len(n);
    if m >= 10 {
        lemma_decimal_len_monotone(m / 10, n / 10);
    }
}

fn digit(d: usize) -> (c: char)
    requires
        d < 10,
    ensures
        c == digit_char(d as nat),
{
    if d == 0 { '0' }
    else if d == 1 { '1' }
    else if d == 2 { '2' }
    else if d == 3 { '3' }
    else if d == 4 { '4' }
    else if d == 5 { '5' }
    else if d == 6 { '6' }
    else if d == 7 { '7' }
    else if d == 8 { '8' }
    else { '9' }
}

/// `n` spaces.
pub open spec fn spaces(n: nat) -> Seq<char> {
    Seq::new(n, |i: int| ' ')
}

/// `s` written `n` times over.
pub open spec fn repeat(s: Seq<char>, n: nat) -> Seq<char>
    decreases n,
{
    if n == 0 {
        Seq::<char>::empty()
    } else {
        repeat(s, (n - 1) as nat) + s
    }
}

/// Appends `n` spaces to `out`.
pub fn push_spaces(out: &mut Vec<char>, n: usize)
    ensures
        final(out)@ == old(out)@ + spaces(n as nat),
{
    let ghost start = out@;
    let mut k: usize = 0;
    while k < n
        invariant
            k <= n,
            out@ == start + spaces(k as nat),
        decreases n - k,
    {
        out.push(' ');
        k = k + 1;
        assert(spaces(k as nat) =~= spaces((k - 1) as nat).push(' '));
    }
}

/// Appends `s` written `n` times over to `out`.
pub fn push_repeat(out: &mut Vec<char>, s: &str, n: usize)
    ensures
        final(out)@ == old(out)@ + repeat(s@, n as nat),
{
    let ghost start = out@;
    let mut k: usize = 0;
    while k < n
        invariant
            k <= n,
            out@ == start + repeat(s@, k as nat),
        decreases n - k,
    {
        push_str(out, s);
        k = k + 1;
        assert(start + repeat(s@, k as nat) =~= start + repeat(s@, (k - 1) as nat) + s@);
    }
}

/// Appends the decimal digits of `n` to `out`.
pub fn push_decimal(out: &mut Vec<char>, n: usize)
    ensures
        final(out)@ == old(out)@ + decimal(n as nat),
    decreases n,
{
    if n < 10 {
        out.push(digit(n));
    } else {
        push_decimal(out, n / 10);
        out.push(digit(n % 10));
    }
}

/// The number of decimal digits of `n`.
pub fn decimal_len(n: usize) -> (len: usize)
    ensures
        len == decimal(n as nat).len(),
        len <= n / 2 + 1,
{
    proof {
        lemma_decimal_len_half(n as nat);
    }
    let mut digits: Vec<char> = Vec::new();
    push_decimal(&mut digits, n);
    digits.len()
}

/// Appends the characters of `s` to `out`.
pub fn push_str(out: &mut Vec<char>, s: &str)
    ensures
        final(out)@ == old(out)@ + s@,
{
    let ghost start = out@;
    for c in it: s.chars()
        invariant
            it.seq() == s@,
            out@ == start + it.seq().take(it.index() as int),
            it.seq().take(it.seq().len() as int) == it.seq(),
    {
        out.push(c);
        assert(out@ =~= start + it.seq().take(it.index() + 1));
    }
}

/// The characters of `s`, one element each.
pub fn chars_of(s: &str) -> (v: Vec<char>)
    ensures
        v@ == s@,
{
    let mut v: Vec<char> = Vec::new();
    push_str(&mut v, s);
    v
}

/// `std`'s `String: FromIterator<char>`: the string made of the given characters in order.
#[verifier::external_body]
pub fn string_from_chars(chars: &Vec<char>) -> (s: String)
    ensures
        s@ == chars@,
{
    String::from_iter(chars)
}

/// Whether `c` has the Unicode White_Space property, which is what `char::is_whitespace` tests.
pub open spec fn is_white_space(c: char) -> bool {
    let u = c as int;
    ||| 9 <= u <= 13
    ||| u == 32
    ||| u == 0x85
    ||| u == 0xA0
    ||| u == 0x1680
    ||| 0x2000 <= u <= 0x200A
    ||| u == 0x2028
    ||| u == 0x2029
    ||| u == 0x202F
    ||| u == 0x205F
    ||| u == 0x3000
}

/// Tests the Unicode White_Space property.
pub fn white_space(c: char) -> (b: bool)
    ensures
        b == is_white_space(c),
{
    let u = c as u32;
    (9 <= u && u <= 13) || u == 32 || u == 0x85 || u == 0xA0 || u == 0x1680 || (0x2000 <= u
        && u <= 0x200A) || u == 0x2028 || u == 0x2029 || u == 0x202F || u == 0x205F || u
        == 0x3000
}

/// `s` without its trailing white space, as `str::trim_end` gives it.
pub open spec fn trim_end(s: Seq<char>) -> Seq<char>
    decreases s.len(),
{
    if s.len() > 0 && is_white_space(s.last()) {
        trim_end(s.drop_last())
    } else {
        s
    }
}

/// The pieces of `s` between its newlines, as `str::split("\n")` gives them:
/// one more piece than there are newlines, the empty ones included.
pub open spec fn split_lines(s: Seq<char>) -> Seq<Seq<char>>
    decreases s.len(),
{
    if s.len() == 0 {
        seq![Seq::<char>::empty()]
    } else {
        let rest = split_lines(s.drop_last());
        if s.last() == '\n' {
            rest.push(Seq::<char>::empty())
        } else {
            rest.update(rest.len() - 1, rest.last().push(s.last()))
        }
    }
}

/// The pieces joined with a newline between each two, as `[String]::join("\n")` gives them.
pub open spec fn join_lines(lines: Seq<Seq<char>>) -> Seq<char>
    decreases lines.len(),
{
    if lines.len() == 0 {
        Seq::<char>::empty()
    } else if lines.len() == 1 {
        lines[0]
    } else {
        join_lines(lines.drop_last()) + seq!['\n'] + lines.last()
    }
}

/// Splitting gives at least one piece.
pub proof fn lemma_split_lines_nonempty(s: Seq<char>)
    ensures
        split_lines(s).len() >= 1,
    decreases s.len(),
{
    if s.len() > 0 {
        lemma_split_lines_nonempty(s.drop_last());
    }
}

/// Adding a character to the last piece adds it to the end of the joined text.
pub proof fn lemma_join_lines_push_last(lines: Seq<Seq<char>>, c: char)
    requires
        lines.len() >= 1,
    ensures
        join_lines(lines.update(lines.len() - 1, lines.last().push(c))) == join_lines(lines).push(c),
{
    let upd = lines.update(lines.len() - 1, lines.last().push(c));
    if lines.len() == 1 {
        assert(upd[0] == lines[0].push(c));
    } else {
        assert(upd.drop_last() =~= lines.drop_last());
        assert(upd.last() == lines.last().push(c));
        assert(join_lines(lines).push(c) =~= join_lines(lines.drop_last()) + seq!['\n']
            + lines.last().push(c));
    }
}

/// Joining the pieces of a split gives back the text that was split.
pub proof fn lemma_join_split_lines(s: Seq<char>)
    ensures
        join_lines(split_lines(s)) == s,
    decreases s.len(),
{
    if s.len() == 0 {
        assert(join_lines(split_lines(s)) =~= s);
    } else {
        let rest = split_lines(s.drop_last());
        lemma_join_split_lines(s.drop_last());
        lemma_split_lines_nonempty(s.drop_last());
        if s.last() == '\n' {
            let ext = rest.push(Seq::<char>::empty());
            assert(ext.drop_last() =~= rest);
            assert(join_lines(ext) =~= s);
        } else {
            lemma_join_lines_push_last(rest, s.last());
            assert(s.drop_last().push(s.last()) =~= s);
        }
    }
}

/// Joining two non-empty lists of pieces puts a newline between their joins.
pub proof fn lemma_join_lines_concat(a: Seq<Seq<char>>, b: Seq<Seq<char>>)
    requires
        a.len() >= 1,
        b.len() >= 1,
    ensures
        join_lines(a + b) == join_lines(a) + seq!['\n'] + join_lines(b),
    decreases b.len(),
{
    if b.len() == 1 {
        assert((a + b).drop_last() =~= a);
        assert((a + b).last() == b[0]);
    } else {
        assert((a + b).drop_last() =~= a + b.drop_last());
        assert((a + b).last() == b.last());
        lemma_join_lines_concat(a, b.drop_last());
        assert(join_lines(a + b) =~= join_lines(a) + seq!['\n'] + join_lines(b));
    }
}

/// The text that comes before piece `i` once the pieces are joined: the
/// pieces before it, joined, and a newline; nothing for the first piece.
pub open spec fn text_before(pieces: Seq<Seq<char>>, i: int) -> Seq<char> {
    if i > 0 {
        join_lines(pieces.take(i)) + seq!['\n']
    } else {
        Seq::<char>::empty()
    }
}

/// The text that comes after piece `i` once the pieces are joined: a newline
/// and the pieces after it, joined; nothing for the last piece.
pub open spec fn text_after(pieces: Seq<Seq<char>>, i: int) -> Seq<char> {
    if i + 1 < pieces.len() {
        seq!['\n'] + join_lines(pieces.skip(i + 1))
    } else {
        Seq::<char>::empty()
    }
}

/// Putting the pieces `mid` in place of piece `i` puts their join in place of
/// that piece in the joined text.
pub proof fn lemma_join_lines_around(pieces: Seq<Seq<char>>, i: int, mid: Seq<Seq<char>>)
    requires
        0 <= i < pieces.len(),
        mid.len() >= 1,
    ensures
        join_lines(pieces.take(i) + mid + pieces.skip(i + 1)) == text_before(pieces, i)
            + join_lines(mid) + text_after(pieces, i),
{
    let pre = pieces.take(i);
    let post = pieces.skip(i + 1);
    if i > 0 {
        lemma_join_lines_concat(pre, mid);
    } else {
        assert(pre + mid =~= mid);
    }
    assert(join_lines(pre + mid) == text_before(pieces, i) + join_lines(mid));
    if i + 1 < pieces.len() {
        assert((pre + mid).len() >= 1);
        lemma_join_lines_concat(pre + mid, post);
        assert(pre + mid + post == (pre + mid) + post);
    } else {
        assert(pre + mid + post =~= pre + mid);
    }
}

/// The joined text is the text before piece `i`, the piece and the text after it.
pub proof fn lemma_join_lines_split_at(pieces: Seq<Seq<char>>, i: int)
    requires
        0 <= i < pieces.len(),
    ensures
        join_lines(pieces) == text_before(pieces, i) + pieces[i] + text_after(pieces, i),
{
    lemma_join_lines_around(pieces, i, seq![pieces[i]]);
    assert(pieces.take(i) + seq![pieces[i]] + pieces.skip(i + 1) =~= pieces);
    assert(join_lines(seq![pieces[i]]) == pieces[i]);
}

/// The number of bytes of the UTF-8 encoding of `t`: what `str::len` gives for it.
pub open spec fn byte_len(t: Seq<char>) -> nat {
    encode_utf8(t).len()
}

/// The number of bytes of the UTF-8 encoding of `c`: what `char::len_utf8` gives.
pub open spec fn char_width(c: char) -> nat {
    encode_scalar(c as u32).len()
}

/// The number of characters of `t` whose encodings lie wholly within its
/// first `p` bytes: at a character boundary, the index of the character that starts there.
pub open spec fn char_index(t: Seq<char>, p: int) -> nat
    decreases t.len(),
{
    if p <= 0 || t.len() == 0 {
        0
    } else {
        1 + char_index(t.drop_first(), p - char_width(t[0]))
    }
}

/// Whether byte offset `p` of the UTF-8 encoding of `t` starts a character or is its end,
/// which is what `str::is_char_boundary` tests.
pub open spec fn on_boundary(t: Seq<char>, p: int) -> bool {
    is_char_boundary(encode_utf8(t), p)
}

/// A character takes one to four bytes, one exactly when it is ASCII.
pub proof fn lemma_char_width(c: char)
    ensures
        1 <= char_width(c) <= 4,
        char_width(c) == 1 <==> (c as u32) <= 0x7F,
        char_width(c) == (if (c as u32) <= 0x7F {
            1nat
        } else if (c as u32) <= 0x7FF {
            2nat
        } else if (c as u32) <= 0xFFFF {
            3nat
        } else {
            4nat
        }),
{
    char_is_scalar(c);
}

/// The empty text encodes to no bytes.
pub open spec fn encode_utf8_empty() -> bool {
    encode_utf8(Seq::<char>::empty()) == Seq::<u8>::empty()
}

/// A single character's text takes its width in bytes.
pub proof fn lemma_byte_len_single(c: char)
    ensures
        byte_len(seq![c]) == char_width(c),
        encode_utf8(seq![c]) == encode_scalar(c as u32),
        encode_utf8_empty(),
{
    assert(encode_utf8(Seq::<char>::empty()) =~= Seq::<u8>::empty());
    assert(seq![c].drop_first() =~= Seq::<char>::empty());
    assert(encode_utf8(seq![c]) =~= encode_scalar(c as u32));
}

/// The encoding of a non-empty text is that of its first character and then the rest.
pub proof fn lemma_encode_first(t: Seq<char>)
    requires
        t.len() > 0,
    ensures
        encode_utf8(t) == encode_scalar(t[0] as u32) + encode_utf8(t.drop_first()),
{
}

/// The encoding of two texts one after the other is their encodings one after the other.
pub proof fn lemma_encode_concat(a: Seq<char>, b: Seq<char>)
    ensures
        encode_utf8(a + b) == encode_utf8(a) + encode_utf8(b),
    decreases a.len(),
{
    if a.len() == 0 {
        assert(a + b =~= b);
        assert(encode_utf8(a) =~= Seq::<u8>::empty());
        assert(encode_utf8(a + b) =~= encode_utf8(a) + encode_utf8(b));
    } else {
        assert((a + b).drop_first() =~= a.drop_first() + b);
        assert((a + b)[0] == a[0]);
        lemma_encode_concat(a.drop_first(), b);
        assert(encode_utf8(a + b) =~= encode_utf8(a) + encode_utf8(b));
    }
}

/// Each further character adds its width to the byte length of a prefix.
pub proof fn lemma_byte_len_take_step(t: Seq<char>, j: int)
    requires
        0 <= j < t.len(),
    ensures
        byte_len(t.take(j + 1)) == byte_len(t.take(j)) + char_width(t[j]),
{
    lemma_encode_concat(t.take(j), seq![t[j]]);
    assert(t.take(j + 1) =~= t.take(j) + seq![t[j]]);
    assert(seq![t[j]].drop_first() =~= Seq::<char>::empty());
    lemma_encode_first(seq![t[j]]);
    assert(encode_utf8(Seq::<char>::empty()) =~= Seq::<u8>::empty());
    assert(encode_utf8(seq![t[j]]) =~= encode_scalar(t[j] as u32));
}

/// Longer prefixes have longer encodings.
pub proof fn lemma_byte_len_take_mono(t: Seq<char>, i: int, j: int)
    requires
        0 <= i <= j <= t.len(),
    ensures
        byte_len(t.take(i)) + (j - i) <= byte_len(t.take(j)),
    decreases j - i,
{
    if i < j {
        lemma_byte_len_take_mono(t, i, j - 1);
        lemma_byte_len_take_step(t, j - 1);
        lemma_char_width(t[j - 1]);
    }
}

/// The byte length of a piece of a text is at most that of the text.
pub proof fn lemma_byte_len_subrange(t: Seq<char>, i: int, j: int)
    requires
        0 <= i <= j <= t.len(),
    ensures
        byte_len(t.subrange(i, j)) <= byte_len(t),
        byte_len(t) == byte_len(t.take(i)) + byte_len(t.subrange(i, j)) + byte_len(
            t.subrange(j, t.len() as int),
        ),
{
    lemma_encode_concat(t.take(i), t.subrange(i, j));
    lemma_encode_concat(t.take(i) + t.subrange(i, j), t.subrange(j, t.len() as int));
    assert(t.take(i) + t.subrange(i, j) + t.subrange(j, t.len() as int) =~= t);
}

/// A boundary is the byte length of the prefix of the characters before it.
pub proof fn lemma_boundary_char_index(t: Seq<char>, p: int)
    requires
        on_boundary(t, p),
    ensures
        char_index(t, p) <= t.len(),
        byte_len(t.take(char_index(t, p) as int)) == p,
    decreases t.len(),
{
    let b = encode_utf8(t);
    encode_utf8_valid_utf8(t);
    if p == 0 {
        assert(t.take(0) =~= Seq::<char>::empty());
        assert(encode_utf8(t.take(0)) =~= Seq::<u8>::empty());
    } else {
        assert(t.len() > 0) by {
            if t.len() == 0 {
                assert(b =~= Seq::<u8>::empty());
            }
        }
        encode_utf8_first_scalar(t);
        let w = char_width(t[0]);
        let rest = t.drop_first();
        assert(pop_first_scalar(b) =~= encode_utf8(rest));
        assert(on_boundary(rest, p - w));
        lemma_boundary_char_index(rest, p - w);
        let k = char_index(rest, p - w);
        lemma_char_width(t[0]);
        assert(char_index(t, p) == 1 + k);
        assert(t.take(1 + k as int).drop_first() =~= rest.take(k as int));
        assert(t.take(1 + k as int)[0] == t[0]);
    }
}

/// The byte length of the first `k` characters is a boundary, and at it are `k` characters.
pub proof fn lemma_char_index_boundary(t: Seq<char>, k: int)
    requires
        0 <= k <= t.len(),
    ensures
        on_boundary(t, byte_len(t.take(k)) as int),
        char_index(t, byte_len(t.take(k)) as int) == k,
    decreases k,
{
    let b = encode_utf8(t);
    encode_utf8_valid_utf8(t);
    if k == 0 {
        assert(t.take(0) =~= Seq::<char>::empty());
        assert(encode_utf8(t.take(0)) =~= Seq::<u8>::empty());
    } else {
        encode_utf8_first_scalar(t);
        let w = char_width(t[0]);
        let rest = t.drop_first();
        assert(pop_first_scalar(b) =~= encode_utf8(rest));
        assert(t.take(k).drop_first() =~= rest.take(k - 1));
        assert(t.take(k)[0] == t[0]);
        lemma_char_width(t[0]);
        lemma_char_index_boundary(rest, k - 1);
        lemma_byte_len_subrange(t, k, k);
        assert(t.subrange(0, k) =~= t.take(k));
        assert(byte_len(t.take(k)) == w + byte_len(rest.take(k - 1)));
    }
}

/// An ASCII text takes one byte a character.
pub proof fn lemma_ascii_byte_len(t: Seq<char>)
    requires
        is_ascii_chars(t),
    ensures
        byte_len(t) == t.len(),
{
    is_ascii_chars_encode_utf8(t);
}

/// A boundary lies within the encoding, and the end of the encoding is a boundary
/// with all the characters before it.
pub proof fn lemma_boundary_bounds(t: Seq<char>, p: int)
    ensures
        on_boundary(t, p) ==> 0 <= p <= byte_len(t),
        on_boundary(t, 0),
        char_index(t, 0) == 0,
        on_boundary(t, byte_len(t) as int),
        char_index(t, byte_len(t) as int) == t.len(),
{
    if on_boundary(t, p) {
        lemma_boundary_char_index(t, p);
        lemma_byte_len_subrange(t, char_index(t, p) as int, char_index(t, p) as int);
    }
    lemma_char_index_boundary(t, 0);
    assert(t.take(0) =~= Seq::<char>::empty());
    assert(encode_utf8(Seq::<char>::empty()) =~= Seq::<u8>::empty());
    lemma_char_index_boundary(t, t.len() as int);
    assert(t.take(t.len() as int) =~= t);
}

/// Every piece of an ASCII text is ASCII.
pub proof fn lemma_ascii_subrange(t: Seq<char>, i: int, j: int)
    requires
        is_ascii_chars(t),
        0 <= i <= j <= t.len(),
    ensures
        is_ascii_chars(t.subrange(i, j)),
{
    assert forall|m: int| 0 <= m < j - i implies '\0' <= #[trigger] t.subrange(i, j)[m] <= '\u{7f}' by {
        assert(t.subrange(i, j)[m] == t[i + m]);
    }
}

/// In an ASCII text every offset up to its length is a boundary, and the
/// characters before it are as many as its bytes.
pub proof fn lemma_ascii_char_index(t: Seq<char>, p: int)
    requires
        is_ascii_chars(t),
        0 <= p <= t.len(),
    ensures
        on_boundary(t, p),
        char_index(t, p) == p,
        byte_len(t) == t.len(),
{
    lemma_ascii_byte_len(t);
    assert(is_ascii_chars(t.take(p))) by {
        assert forall|i: int| 0 <= i < t.take(p).len() implies '\0' <= #[trigger] t.take(p)[i]
            <= '\u{7f}' by {
            assert(t.take(p)[i] == t[i]);
        }
    }
    lemma_ascii_byte_len(t.take(p));
    lemma_char_index_boundary(t, p);
}

/// Text put in at a boundary `p` of `t`, before the character at index `k` that
/// starts there: the boundary stays before it and a new one follows it.
pub proof fn lemma_insert_at_boundary(t: Seq<char>, p: int, m: Seq<char>)
    requires
        on_boundary(t, p),
    ensures
        ({
            let k = char_index(t, p) as int;
            let u = t.subrange(0, k) + m + t.subrange(k, t.len() as int);
            &&& k <= t.len()
            &&& byte_len(u) == byte_len(t) + byte_len(m)
            &&& on_boundary(u, p)
            &&& char_index(u, p) == k
            &&& on_boundary(u, p + byte_len(m))
            &&& char_index(u, p + byte_len(m)) == k + m.len()
        }),
{
    lemma_boundary_char_index(t, p);
    let k = char_index(t, p) as int;
    let a = t.subrange(0, k);
    let b = t.subrange(k, t.len() as int);
    let u = a + m + b;
    assert(a =~= t.take(k));
    lemma_encode_concat(a, m);
    lemma_encode_concat(a + m, b);
    lemma_encode_concat(a, b);
    assert(a + b =~= t);
    assert(u.take(k) =~= a);
    assert(u.take(k + m.len()) =~= a + m);
    lemma_char_index_boundary(u, k);
    lemma_char_index_boundary(u, k + m.len());
}

/// Cutting the characters between two boundaries `p <= q` of `t` out leaves `p`
/// a boundary with as many characters before it, and shortens the text by `q - p` bytes.
pub proof fn lemma_cut_between_boundaries(t: Seq<char>, p: int, q: int)
    requires
        on_boundary(t, p),
        on_boundary(t, q),
        p <= q,
    ensures
        ({
            let ks = char_index(t, p) as int;
            let ke = char_index(t, q) as int;
            let u = t.subrange(0, ks) + t.subrange(ke, t.len() as int);
            &&& ks <= ke <= t.len()
            &&& byte_len(t.subrange(ks, ke)) == q - p
            &&& byte_len(u) + (q - p) == byte_len(t)
            &&& on_boundary(u, p)
            &&& char_index(u, p) == ks
        }),
{
    lemma_boundary_char_index(t, p);
    lemma_boundary_char_index(t, q);
    let ks = char_index(t, p) as int;
    let ke = char_index(t, q) as int;
    if ke < ks {
        lemma_byte_len_take_mono(t, ke + 1, ks);
        lemma_byte_len_take_step(t, ke);
        lemma_char_width(t[ke]);
    }
    let a = t.subrange(0, ks);
    let b = t.subrange(ke, t.len() as int);
    let u = a + b;
    lemma_byte_len_subrange(t, ks, ke);
    lemma_byte_len_subrange(t, 0, ke);
    assert(t.subrange(0, ke) =~= t.take(ke));
    assert(t.take(0) =~= Seq::<char>::empty());
    assert(encode_utf8(Seq::<char>::empty()) =~= Seq::<u8>::empty());
    assert(t.take(ke).take(ks) =~= t.take(ks));
    assert(t.take(ke).subrange(ks, ke) =~= t.subrange(ks, ke));
    lemma_byte_len_subrange(t.take(ke), ks, ke);
    assert(t.take(ke).subrange(ke, ke) =~= Seq::<char>::empty());
    assert(a =~= t.take(ks));
    lemma_encode_concat(a, b);
    assert(u.take(ks) =~= a);
    lemma_char_index_boundary(u, ks);
}

/// The number of bytes in the UTF-8 encoding of `c`.
pub fn char_width_exec(c: char) -> (w: usize)
    ensures
        w == char_width(c),
{
    proof {
        lemma_char_width(c);
    }
    let u = c as u32;
    if u <= 0x7F {
        1
    } else if u <= 0x7FF {
        2
    } else if u <= 0xFFFF {
        3
    } else {
        4
    }
}

/// The index of the character that starts at byte offset `p` of the encoding
/// of `t`, or `None` when `p` is not a character boundary.
pub fn char_index_exec(t: &Vec<char>, p: usize) -> (r: Option<usize>)
    ensures
        r is Some <==> on_boundary(t@, p as int),
        r matches Some(k) ==> k == char_index(t@, p as int) && k <= t@.len() && byte_len(
            t@.take(k as int),
        ) == p,
{
    let mut acc: usize = 0;
    let mut i: usize = 0;
    assert(t@.take(0) =~= Seq::<char>::empty());
    assert(encode_utf8(Seq::<char>::empty()) =~= Seq::<u8>::empty());
    while acc < p && i < t.len()
        invariant
            i <= t@.len(),
            acc <= p,
            acc == byte_len(t@.take(i as int)),
        decreases t@.len() - i,
    {
        let w = char_width_exec(t[i]);
        proof {
            lemma_byte_len_take_step(t@, i as int);
        }
        if w > p - acc {
            proof {
                if on_boundary(t@, p as int) {
                    lemma_boundary_char_index(t@, p as int);
                    let k = char_index(t@, p as int) as int;
                    if k <= i {
                        lemma_byte_len_take_mono(t@, k, i as int);
                    } else {
                        lemma_byte_len_take_mono(t@, i + 1, k);
                    }
                }
            }
            return None;
        }
        acc = acc + w;
        i = i + 1;
    }
    if acc == p {
        proof {
            lemma_char_index_boundary(t@, i as int);
        }
        Some(i)
    } else {
        proof {
            assert(t@.take(i as int) =~= t@);
            if on_boundary(t@, p as int) {
                lemma_boundary_char_index(t@, p as int);
                let k = char_index(t@, p as int) as int;
                lemma_byte_len_take_mono(t@, k, t@.len() as int);
            }
        }
        None
    }
}

/// No character comes before NUL.
proof fn lemma_char_at_least_nul(c: char)
    ensures
        '\0' <= c,
{
}

/// Whether every character of `t` from index `i` up to index `j` is ASCII.
pub fn ascii_between(t: &Vec<char>, i: usize, j: usize) -> (b: bool)
    requires
        i <= j <= t@.len(),
    ensures
        b == is_ascii_chars(t@.subrange(i as int, j as int)),
{
    let mut k = i;
    while k < j
        invariant
            i <= k <= j,
            j <= t@.len(),
            forall|m: int| i <= m < k ==> '\0' <= #[trigger] t@[m] <= '\x7f',
        decreases j - k,
    {
        let c = t[k];
        if c > '\x7f' {
            assert(t@.subrange(i as int, j as int)[k - i] == t@[k as int]);
            return false;
        }
        assert(c == t@[k as int]);
        proof {
            lemma_char_at_least_nul(c);
        }
        k = k + 1;
    }
    assert forall|m: int| 0 <= m < j - i implies '\0' <= #[trigger] t@.subrange(
        i as int,
        j as int,
    )[m] <= '\x7f' by {
        assert(t@.subrange(i as int, j as int)[m] == t@[i + m]);
    }
    true
}

/// The length of `s` once its trailing white space is cut off.
pub fn trim_end_len(s: &Vec<char>) -> (n: usize)
    ensures
        n <= s.len(),
        s@.subrange(0, n as int) == trim_end(s@),
{
    let mut n = s.len();
    assert(s@.subrange(0, n as int) =~= s@);
    while n > 0 && white_space(s[n - 1])
        invariant
            n <= s.len(),
            trim_end(s@) == trim_end(s@.subrange(0, n as int)),
        decreases n,
    {
        assert(s@.subrange(0, n as int).drop_last() =~= s@.subrange(0, n - 1));
        n = n - 1;
    }
    n
}

/// The pieces of the first `n` characters of `s` between its newlines.
pub fn split_lines_exec(s: &Vec<char>, n: usize) -> (pieces: Vec<Vec<char>>)
    requires
        n <= s.len(),
    ensures
        pieces@.len() == split_lines(s@.subrange(0, n as int)).len(),
        forall|k: int|
            0 <= k < pieces@.len() ==> #[trigger] pieces@[k]@ == split_lines(
                s@.subrange(0, n as int),
            )[k],
{
    let mut done: Vec<Vec<char>> = Vec::new();
    let mut cur: Vec<char> = Vec::new();
    let mut i: usize = 0;
    while i < n
        invariant
            n <= s.len(),
            i <= n,
            done@.len() + 1 == split_lines(s@.subrange(0, i as int)).len(),
            forall|k: int|
                0 <= k < done@.len() ==> #[trigger] done@[k]@ == split_lines(
                    s@.subrange(0, i as int),
                )[k],
            cur@ == split_lines(s@.subrange(0, i as int)).last(),
        decreases n - i,
    {
        let ghost prefix = s@.subrange(0, i as int);
        let ghost next = s@.subrange(0, i + 1);
        assert(next.drop_last() =~= prefix);
        proof {
            lemma_split_lines_nonempty(prefix);
        }
        let c = s[i];
        if c == '\n' {
            let finished = cur;
            done.push(finished);
            cur = Vec::new();
            assert(cur@ =~= Seq::<char>::empty());
        } else {
            cur.push(c);
        }
        i = i + 1;
    }
    done.push(cur);
    done
}

} // verus!
