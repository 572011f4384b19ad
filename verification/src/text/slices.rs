//! Pieces of a string cut at ASCII delimiters, and the lines of a text.

use vstd::prelude::*;
use vstd::utf8::*;
use vstd::string::*;
use crate::amqp::types::{copy_range, string_from_utf8};

verus! {

/// Right after an ASCII byte that starts a character, another character
/// starts.
proof fn lemma_ascii_then_boundary(bytes: Seq<u8>, i: int)
    requires
        valid_utf8(bytes),
        0 <= i < bytes.len(),
        is_char_boundary(bytes, i),
        bytes[i] < 128,
    ensures
        is_char_boundary(bytes, i + 1),
    decreases bytes.len(),
{
    let l = length_of_first_scalar(bytes);
    let pop = pop_first_scalar(bytes);
    assert(valid_first_scalar(bytes) && valid_utf8(pop));
    assert(l >= 1 && l <= bytes.len());
    assert(pop.len() == bytes.len() - l);
    if i == 0 {
        assert(l == 1);
        assert(is_char_boundary(pop, 0));
    } else {
        assert(is_char_boundary(pop, i - l));
        assert(i - l >= 0);
        if i - l == 0 {
            assert(pop[0] == bytes[i]);
            lemma_ascii_then_boundary(pop, 0);
        } else {
            assert(pop[i - l] == bytes[i]);
            lemma_ascii_then_boundary(pop, i - l);
        }
    }
}

/// The bytes between two ASCII delimiters (or the ends) of UTF-8 text are
/// UTF-8 themselves.
pub proof fn lemma_ascii_delimited_valid(h: Seq<u8>, a: int, b: int)
    requires
        valid_utf8(h),
        0 <= a <= b <= h.len(),
        a == 0 || h[a - 1] < 128,
        b == h.len() || h[b] < 128,
    ensures
        valid_utf8(h.subrange(a, b)),
{
    is_char_boundary_start_end_of_seq(h);
    if b < h.len() {
        is_char_boundary_iff_not_is_continuation_byte(h, b);
    }
    assert(is_char_boundary(h, b));
    if a > 0 {
        is_char_boundary_iff_not_is_continuation_byte(h, a - 1);
        lemma_ascii_then_boundary(h, a - 1);
    }
    assert(is_char_boundary(h, a));
    valid_utf8_split(h, b);
    let pre = h.subrange(0, b);
    assert(valid_utf8(pre));
    if a == b {
        assert(h.subrange(a, b) =~= Seq::<u8>::empty());
    } else {
        is_char_boundary_iff_not_is_continuation_byte(h, a);
        is_char_boundary_iff_not_is_continuation_byte(pre, a);
        assert(pre[a] == h[a]);
        assert(is_char_boundary(pre, a));
        valid_utf8_split(pre, a);
        assert(pre.subrange(a, b) =~= h.subrange(a, b));
    }
}

/// The text between byte positions `a` and `b` of UTF-8 bytes `h`, where
/// each position is an end or borders an ASCII delimiter.
pub fn text_between(h: &[u8], a: usize, b: usize) -> (r: String)
    requires
        valid_utf8(h@),
        a <= b <= h@.len(),
        a == 0 || h@[a - 1] < 128,
        b == h@.len() || h@[b as int] < 128,
    ensures
        encode_utf8(r@) == h@.subrange(a as int, b as int),
        r@ == decode_utf8(h@.subrange(a as int, b as int)),
{
    proof {
        lemma_ascii_delimited_valid(h@, a as int, b as int);
    }
    let piece = copy_range(h, a, b);
    match string_from_utf8(piece.as_slice()) {
        Some(s) => {
            proof {
                encode_utf8_decode_utf8(s@);
            }
            s
        },
        None => {
            assert(false);
            String::new()
        },
    }
}

/// The position of the first `\r\n` at or after `from`, or `s.len()`.
pub open spec fn line_end(s: Seq<u8>, from: int) -> int
    decreases s.len() - from,
{
    if from < 0 || from + 1 >= s.len() {
        s.len() as int
    } else if s[from] == 13 && s[from + 1] == 10 {
        from
    } else {
        line_end(s, from + 1)
    }
}

/// A line ends at or after where it starts, within the text, and where it
/// ends before the text does a `\r\n` follows.
pub proof fn lemma_line_end_bounds(s: Seq<u8>, from: int)
    requires
        0 <= from <= s.len(),
    ensures
        from <= line_end(s, from) <= s.len(),
        line_end(s, from) < s.len() ==> line_end(s, from) + 1 < s.len() && s[line_end(s, from)]
            == 13 && s[line_end(s, from) + 1] == 10,
    decreases s.len() - from,
{
    if from + 1 < s.len() && !(s[from] == 13 && s[from + 1] == 10) {
        lemma_line_end_bounds(s, from + 1);
    }
}

/// Finds where the line that starts at `from` ends.
pub fn find_line_end(s: &[u8], from: usize) -> (r: usize)
    requires
        from <= s@.len(),
    ensures
        r == line_end(s@, from as int),
        from <= r <= s@.len(),
        r < s@.len() ==> r + 1 < s@.len() && s@[r as int] == 13 && s@[r + 1] == 10,
{
    proof {
        lemma_line_end_bounds(s@, from as int);
    }
    let mut i: usize = from;
    while i < s.len() && i + 1 < s.len()
        invariant
            from <= i <= s@.len(),
            line_end(s@, i as int) == line_end(s@, from as int),
        decreases s@.len() - i,
    {
        if s[i] == 13 && s[i + 1] == 10 {
            return i;
        }
        i = i + 1;
    }
    s.len()
}

/// The index of the first `b` in `s` at or after `from` and before `to`,
/// or `to`.
pub open spec fn byte_index_within(s: Seq<u8>, b: u8, from: int, to: int) -> int
    decreases to - from,
{
    if from >= to {
        to
    } else if s[from] == b {
        from
    } else {
        byte_index_within(s, b, from + 1, to)
    }
}

/// Finds the first `b` in `s` between `from` and `to`.
pub fn find_byte_within(s: &[u8], b: u8, from: usize, to: usize) -> (r: usize)
    requires
        from <= to <= s@.len(),
    ensures
        r == byte_index_within(s@, b, from as int, to as int),
        from <= r <= to,
        r < to ==> s@[r as int] == b,
{
    let mut i: usize = from;
    while i < to
        invariant
            from <= i <= to <= s@.len(),
            byte_index_within(s@, b, i as int, to as int) == byte_index_within(
                s@,
                b,
                from as int,
                to as int,
            ),
        decreases to - i,
    {
        if s[i] == b {
            return i;
        }
        i = i + 1;
    }
    to
}

/// Whether `s` begins with `p`.
pub open spec fn starts_with_chars(s: Seq<char>, p: Seq<char>) -> bool {
    s.len() >= p.len() && s.subrange(0, p.len() as int) == p
}

/// Tests whether `s` begins with `p`.
pub fn str_starts_with(s: &str, p: &str) -> (r: bool)
    ensures
        r == starts_with_chars(s@, p@),
{
    let n = s.unicode_len();
    let m = p.unicode_len();
    if n < m {
        return false;
    }
    let mut i: usize = 0;
    while i < m
        invariant
            i <= m <= n,
            n == s@.len(),
            m == p@.len(),
            forall|j: int| 0 <= j < i ==> s@[j] == p@[j],
        decreases m - i,
    {
        if s.get_char(i) != p.get_char(i) {
            assert(s@.subrange(0, m as int)[i as int] != p@[i as int]);
            return false;
        }
        i = i + 1;
    }
    assert(s@.subrange(0, m as int) =~= p@);
    true
}

/// The UTF-8 encoding of two strings joined is their encodings joined.
pub proof fn lemma_encode_utf8_concat(a: Seq<char>, b: Seq<char>)
    ensures
        encode_utf8(a + b) == encode_utf8(a) + encode_utf8(b),
    decreases a.len(),
{
    if a.len() == 0 {
        assert(a + b =~= b);
        assert(encode_utf8(a) =~= Seq::<u8>::empty());
        assert(encode_utf8(a) + encode_utf8(b) =~= encode_utf8(b));
    } else {
        assert((a + b).drop_first() =~= a.drop_first() + b);
        assert((a + b)[0] == a[0]);
        lemma_encode_utf8_concat(a.drop_first(), b);
        assert(encode_scalar(a[0] as u32) + (encode_utf8(a.drop_first()) + encode_utf8(b))
            =~= (encode_scalar(a[0] as u32) + encode_utf8(a.drop_first())) + encode_utf8(b));
    }
}

/// The lines of `h` from byte `start` on that hold a `:`, each as the
/// positions of its start, its first `:` and its end. Lines end at
/// `\r\n`.
pub open spec fn keyed_lines(h: Seq<u8>, start: int) -> Seq<(int, int, int)>
    decreases h.len() - start,
{
    if start < 0 || start > h.len() {
        Seq::empty()
    } else {
        let e = line_end(h, start);
        let c = byte_index_within(h, 58, start, e);
        let rest = if e >= h.len() {
            Seq::<(int, int, int)>::empty()
        } else {
            proof {
                lemma_line_end_bounds(h, start);
            }
            keyed_lines(h, e + 2)
        };
        if e > start && c < e {
            seq![(start, c, e)] + rest
        } else {
            rest
        }
    }
}

/// Where a keyed line's pieces lie: its start follows a `\n` (or is 0),
/// its `:` is one, and its end is a `\r` (or the end).
pub open spec fn keyed_line_ok(h: Seq<u8>, l: (int, int, int)) -> bool {
    &&& 0 <= l.0 <= l.1 < l.2 <= h.len()
    &&& l.0 == 0 || h[l.0 - 1] == 10
    &&& h[l.1] == 58
    &&& l.2 == h.len() || h[l.2] == 13
}

/// A keyed line as positions.
pub open spec fn triple_of(t: (usize, usize, usize)) -> (int, int, int) {
    (t.0 as int, t.1 as int, t.2 as int)
}

/// The keyed lines as positions.
pub open spec fn triples_of(v: Seq<(usize, usize, usize)>) -> Seq<(int, int, int)> {
    v.map_values(|t: (usize, usize, usize)| triple_of(t))
}

/// Finds the lines of `h` that hold a `:`.
pub fn find_keyed_lines(h: &[u8]) -> (r: Vec<(usize, usize, usize)>)
    ensures
        triples_of(r@) == keyed_lines(h@, 0),
        forall|i: int| 0 <= i < r@.len() ==> keyed_line_ok(h@, #[trigger] triple_of(r@[i])),
{
    let mut out: Vec<(usize, usize, usize)> = Vec::new();
    let mut start: usize = 0;
    loop
        invariant
            start <= h@.len(),
            start == 0 || h@[start - 1] == 10,
            keyed_lines(h@, 0) == triples_of(out@) + keyed_lines(h@, start as int),
            forall|i: int| 0 <= i < out@.len() ==> keyed_line_ok(h@, #[trigger] triple_of(out@[i])),
        decreases h@.len() - start,
    {
        let e = find_line_end(h, start);
        let c = find_byte_within(h, 58, start, e);
        let ghost before = out@;
        if e > start && c < e {
            out.push((start, c, e));
            proof {
                assert(triples_of(out@) =~= triples_of(before) + seq![(start as int, c as int, e as int)]);
            }
        }
        if e >= h.len() {
            proof {
                assert(keyed_lines(h@, start as int) =~= if e > start && c < e {
                    seq![(start as int, c as int, e as int)]
                } else {
                    Seq::<(int, int, int)>::empty()
                });
                assert(triples_of(out@) =~= triples_of(out@) + Seq::<(int, int, int)>::empty());
            }
            return out;
        }
        proof {
            if e > start && c < e {
                assert(triples_of(before) + keyed_lines(h@, start as int) =~= triples_of(out@)
                    + keyed_lines(h@, e + 2));
            } else {
                assert(triples_of(before) + keyed_lines(h@, start as int) =~= triples_of(out@)
                    + keyed_lines(h@, e + 2));
            }
        }
        start = e + 2;
    }
}

} // verus!
