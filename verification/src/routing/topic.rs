//! Topic-pattern matching for topic exchanges.
//!
//! A pattern and a routing key are split into words at `.`; in the pattern
//! `*` stands for exactly one word and `#` for zero or more words.

use vstd::prelude::*;
use vstd::utf8::*;
use vstd::string::*;

verus! {

/// The byte `.` that separates words.
pub open spec fn dot() -> u8 {
    46u8
}

/// The words of `s`, split at every `.`; an empty input is one empty word,
/// as `str::split` gives.
pub open spec fn split_words(s: Seq<u8>) -> Seq<Seq<u8>>
    decreases s.len(),
{
    if s.len() == 0 {
        seq![Seq::empty()]
    } else {
        let prev = split_words(s.drop_last());
        if s.last() == dot() {
            prev.push(Seq::empty())
        } else {
            prev.drop_last().push(prev.last().push(s.last()))
        }
    }
}

/// The word `#`.
pub open spec fn hash_word() -> Seq<u8> {
    seq![35u8]
}

/// The word `*`.
pub open spec fn star_word() -> Seq<u8> {
    seq![42u8]
}

/// Whether the pattern words `p` match the key words `k`, deciding on the
/// last pattern word: `#` takes zero words or one more key word, `*` takes
/// exactly one key word, and any other word must equal the last key word.
pub open spec fn words_match(p: Seq<Seq<u8>>, k: Seq<Seq<u8>>) -> bool
    decreases p.len(), k.len(),
{
    if p.len() == 0 {
        k.len() == 0
    } else if p.last() == hash_word() {
        words_match(p.drop_last(), k) || (k.len() > 0 && words_match(p, k.drop_last()))
    } else if p.last() == star_word() {
        k.len() > 0 && words_match(p.drop_last(), k.drop_last())
    } else {
        k.len() > 0 && k.last() == p.last() && words_match(p.drop_last(), k.drop_last())
    }
}

/// Whether a topic `pattern` matches a `routing_key`, both given by their
/// UTF-8 bytes.
pub open spec fn topic_match_spec(pattern: Seq<u8>, key: Seq<u8>) -> bool {
    words_match(split_words(pattern), split_words(key))
}

/// `split_words` never yields an empty list.
pub proof fn lemma_split_nonempty(s: Seq<u8>)
    ensures
        split_words(s).len() >= 1,
    decreases s.len(),
{
    if s.len() > 0 {
        lemma_split_nonempty(s.drop_last());
    }
}

/// Byte-wise equality of two slices.
pub fn bytes_eq(a: &[u8], b: &[u8]) -> (r: bool)
    ensures
        r == (a@ == b@),
{
    if a.len() != b.len() {
        return false;
    }
    let mut i: usize = 0;
    while i < a.len()
        invariant
            a@.len() == b@.len(),
            i <= a@.len(),
            forall|j: int| 0 <= j < i ==> a@[j] == b@[j],
        decreases a@.len() - i,
    {
        if a[i] != b[i] {
            return false;
        }
        i = i + 1;
    }
    assert(a@ =~= b@);
    true
}

/// Equality of two string slices, decided on their UTF-8 bytes.
pub fn str_eq(a: &str, b: &str) -> (r: bool)
    ensures
        r == (a@ == b@),
{
    let r = bytes_eq(a.as_bytes(), b.as_bytes());
    proof {
        encode_utf8_decode_utf8(a@);
        encode_utf8_decode_utf8(b@);
    }
    r
}

/// Splits bytes into the words between `.` separators.
pub fn split_dots(s: &[u8]) -> (r: Vec<Vec<u8>>)
    ensures
        r@.len() == split_words(s@).len(),
        forall|i: int| 0 <= i < r@.len() ==> #[trigger] r@[i]@ == split_words(s@)[i],
{
    let mut words: Vec<Vec<u8>> = Vec::new();
    let mut cur: Vec<u8> = Vec::new();
    let mut i: usize = 0;
    assert(s@.subrange(0, 0) =~= Seq::<u8>::empty());
    while i < s.len()
        invariant
            i <= s@.len(),
            words@.len() + 1 == split_words(s@.subrange(0, i as int)).len(),
            forall|j: int|
                0 <= j < words@.len() ==> #[trigger] words@[j]@ == split_words(
                    s@.subrange(0, i as int),
                )[j],
            cur@ == split_words(s@.subrange(0, i as int)).last(),
        decreases s@.len() - i,
    {
        let ghost prev = split_words(s@.subrange(0, i as int));
        let b = s[i];
        i = i + 1;
        assert(s@.subrange(0, i as int).drop_last() =~= s@.subrange(0, i - 1));
        if b == 46 {
            let done = cur;
            words.push(done);
            cur = Vec::new();
        } else {
            cur.push(b);
        }
        proof {
            lemma_split_nonempty(s@.subrange(0, i - 1));
        }
    }
    words.push(cur);
    assert(s@.subrange(0, s@.len() as int) =~= s@);
    words
}

/// Whether the word `w` is the single byte `c`.
fn is_single(w: &Vec<u8>, c: u8) -> (r: bool)
    ensures
        r == (w@ == seq![c]),
{
    let r = w.len() == 1 && w[0] == c;
    proof {
        if w@.len() == 1 && w@[0] == c {
            assert(w@ =~= seq![c]);
        }
    }
    r
}

/// The `#` pattern matches every list of words.
pub proof fn lemma_hash_matches_all(k: Seq<Seq<u8>>)
    ensures
        words_match(seq![hash_word()], k),
    decreases k.len(),
{
    let p = seq![hash_word()];
    assert(p.drop_last() =~= Seq::<Seq<u8>>::empty());
    assert(p.last() == hash_word());
    if k.len() > 0 {
        lemma_hash_matches_all(k.drop_last());
    } else {
        assert(words_match(p.drop_last(), k));
    }
}

/// A list of words, read as a pattern, matches itself.
pub proof fn lemma_words_match_self(w: Seq<Seq<u8>>)
    ensures
        words_match(w, w),
    decreases w.len(),
{
    if w.len() > 0 {
        lemma_words_match_self(w.drop_last());
        assert(w.drop_last().push(w.last()) =~= w);
        if w.last() == hash_word() {
            lemma_hash_tail_absorbs(w.drop_last(), w.drop_last(), w.last());
        }
    }
}

/// A trailing `#` can take one more key word after a match.
proof fn lemma_hash_tail_absorbs(p: Seq<Seq<u8>>, k: Seq<Seq<u8>>, extra: Seq<u8>)
    requires
        words_match(p, k),
    ensures
        words_match(p.push(hash_word()), k.push(extra)),
{
    let pp = p.push(hash_word());
    let kk = k.push(extra);
    assert(pp.drop_last() =~= p);
    assert(kk.drop_last() =~= k);
    assert(words_match(pp, k));
}

/// Evaluates whether a routing key matches a topic binding pattern, by
/// dynamic programming over pattern words and key words.
pub fn topic_matches(pattern: &str, routing_key: &str) -> (r: bool)
    ensures
        r == topic_match_spec(pattern.spec_bytes(), routing_key.spec_bytes()),
{
    let pb = pattern.as_bytes();
    let kb = routing_key.as_bytes();
    if bytes_eq(pb, kb) {
        proof {
            lemma_words_match_self(split_words(pb@));
        }
        return true;
    }
    if pb.len() == 1 && pb[0] == 35 {
        proof {
            assert(pb@ =~= seq![35u8]);
            assert(pb@.drop_last() =~= Seq::<u8>::empty());
            assert(split_words(Seq::<u8>::empty()) =~= seq![Seq::<u8>::empty()]);
            assert(split_words(pb@) =~= seq![hash_word()]);
            lemma_hash_matches_all(split_words(kb@));
        }
        return true;
    }
    let pat = split_dots(pb);
    let key = split_dots(kb);
    let ghost p = split_words(pb@);
    let ghost k = split_words(kb@);
    let kn = key.len();
    let mut prev: Vec<bool> = Vec::new();
    prev.push(true);
    assert(words_match(p.subrange(0, 0), k.subrange(0, 0)));
    let mut j: usize = 0;
    while j < kn
        invariant
            kn == k.len(),
            j <= kn,
            prev@.len() == j + 1,
            forall|t: int|
                0 <= t <= j ==> #[trigger] prev@[t] == words_match(
                    p.subrange(0, 0),
                    k.subrange(0, t),
                ),
        decreases kn - j,
    {
        prev.push(false);
        proof {
            assert(p.subrange(0, 0).len() == 0);
            assert(k.subrange(0, j + 1).len() == j + 1);
        }
        j = j + 1;
    }
    let mut i: usize = 0;
    while i < pat.len()
        invariant
            pat@.len() == p.len(),
            key@.len() == k.len(),
            kn == k.len(),
            forall|t: int| 0 <= t < pat@.len() ==> #[trigger] pat@[t]@ == p[t],
            forall|t: int| 0 <= t < key@.len() ==> #[trigger] key@[t]@ == k[t],
            i <= p.len(),
            prev@.len() == kn + 1,
            forall|t: int|
                0 <= t <= kn ==> #[trigger] prev@[t] == words_match(
                    p.subrange(0, i as int),
                    k.subrange(0, t),
                ),
        decreases p.len() - i,
    {
        let seg = &pat[i];
        let ghost pi = p.subrange(0, i as int);
        let ghost pi1 = p.subrange(0, i + 1);
        assert(pi1.drop_last() =~= pi);
        assert(pi1.last() == seg@);
        let mut curr: Vec<bool> = Vec::new();
        let seg_hash = is_single(seg, 35);
        let seg_star = is_single(seg, 42);
        // The empty key prefix: only a `#` word can match it.
        let first = seg_hash && prev[0];
        curr.push(first);
        let mut j: usize = 0;
        while j < kn
            invariant
                pat@.len() == p.len(),
                key@.len() == k.len(),
                kn == k.len(),
                forall|t: int| 0 <= t < key@.len() ==> #[trigger] key@[t]@ == k[t],
                i < p.len(),
                pi == p.subrange(0, i as int),
                pi1 == p.subrange(0, i + 1),
                pi1.drop_last() == pi,
                pi1.last() == seg@,
                seg_hash == (seg@ == hash_word()),
                seg_star == (seg@ == star_word()),
                prev@.len() == kn + 1,
                forall|t: int|
                    0 <= t <= kn ==> #[trigger] prev@[t] == words_match(pi, k.subrange(0, t)),
                j <= kn,
                curr@.len() == j + 1,
                forall|t: int|
                    0 <= t <= j ==> #[trigger] curr@[t] == words_match(pi1, k.subrange(0, t)),
            decreases kn - j,
        {
            let ghost kj = k.subrange(0, j + 1);
            assert(kj.drop_last() =~= k.subrange(0, j as int));
            assert(kj.last() == k[j as int]);
            let v: bool;
            if seg_hash {
                v = prev[j + 1] || curr[j];
            } else if seg_star {
                v = prev[j];
            } else {
                let same = bytes_eq(seg.as_slice(), key[j].as_slice());
                v = prev[j] && same;
            }
            curr.push(v);
            j = j + 1;
        }
        prev = curr;
        i = i + 1;
    }
    assert(p.subrange(0, p.len() as int) =~= p);
    assert(k.subrange(0, kn as int) =~= k);
    prev[kn]
}

/// The `*` pattern matches exactly the keys of one word.
pub proof fn lemma_star_matches_one_word(k: Seq<Seq<u8>>)
    ensures
        words_match(seq![star_word()], k) <==> k.len() == 1,
{
    let p = seq![star_word()];
    assert(p.drop_last() =~= Seq::<Seq<u8>>::empty());
    assert(p.last() == star_word());
    assert(star_word() != hash_word()) by {
        assert(star_word()[0] != hash_word()[0]);
    }
    assert(words_match(p, k) == (k.len() > 0 && words_match(p.drop_last(), k.drop_last())));
    if k.len() > 0 {
        assert(words_match(p.drop_last(), k.drop_last()) == (k.drop_last().len() == 0));
    }
}

/// Whether no pattern word is `#` or `*`.
pub open spec fn plain_words(p: Seq<Seq<u8>>) -> bool {
    forall|i: int| 0 <= i < p.len() ==> #[trigger] p[i] != hash_word() && p[i] != star_word()
}

/// A pattern without `#` or `*` matches exactly the key of the same
/// words.
pub proof fn lemma_plain_pattern_matches_itself_only(p: Seq<Seq<u8>>, k: Seq<Seq<u8>>)
    requires
        plain_words(p),
    ensures
        words_match(p, k) <==> p == k,
    decreases p.len(),
{
    if p.len() > 0 {
        let init = p.drop_last();
        assert(p[p.len() - 1] != hash_word() && p[p.len() - 1] != star_word());
        assert forall|i: int| 0 <= i < init.len() implies #[trigger] init[i] != hash_word() && init[i] != star_word() by {
            assert(init[i] == p[i]);
        }
        assert(words_match(p, k) == (k.len() > 0 && k.last() == p.last() && words_match(init, k.drop_last())));
        if k.len() > 0 {
            lemma_plain_pattern_matches_itself_only(init, k.drop_last());
            if p =~= k {
                assert(init =~= k.drop_last());
                assert(words_match(p, k));
            }
            if words_match(p, k) {
                assert(init == k.drop_last());
                assert(p.len() == k.len());
                assert forall|i: int| 0 <= i < p.len() implies p[i] == k[i] by {
                    if i < p.len() - 1 {
                        assert(p[i] == init[i]);
                        assert(k[i] == k.drop_last()[i]);
                    } else {
                        assert(p[i] == p.last());
                        assert(k[i] == k.last());
                    }
                }
                assert(p =~= k);
            }
        } else {
            assert(p.len() != k.len());
        }
    } else {
        if k.len() == 0 {
            assert(p =~= k);
        }
    }
}

} // verus!
