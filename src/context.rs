//! Word-bounded context windows around a byte offset.

use vstd::prelude::*;
use vstd::string::StringSliceAdditionalSpecFns;
use vstd::utf8::*;
use crate::text::{is_space, lemma_ascii_bounded_valid, string_from_utf8};

verus! {

broadcast use vstd::string::group_string_axioms;

/// `cur` as a finished word, if it holds any byte.
pub open spec fn flush(cur: Seq<u8>) -> Seq<Seq<u8>> {
    if cur.len() > 0 {
        seq![cur]
    } else {
        seq![]
    }
}

/// The words of `b`, given that `cur` is the part of a word read just before it.
pub open spec fn split_from(b: Seq<u8>, cur: Seq<u8>) -> Seq<Seq<u8>>
    decreases b.len(),
{
    if b.len() == 0 {
        flush(cur)
    } else if is_space(b[0]) {
        flush(cur) + split_from(b.drop_first(), seq![])
    } else {
        split_from(b.drop_first(), cur.push(b[0]))
    }
}

/// The words of a text: its maximal runs of bytes that are not ASCII
/// whitespace, in order.
pub open spec fn words(b: Seq<u8>) -> Seq<Seq<u8>> {
    split_from(b, seq![])
}

/// The byte length of each word.
pub open spec fn word_lens(ws: Seq<Seq<u8>>) -> Seq<int> {
    ws.map_values(|w: Seq<u8>| w.len() as int)
}

/// Bytes counted for the first `i` words, each with one separator.
pub open spec fn span(lens: Seq<int>, i: int) -> int
    decreases i,
{
    if i <= 0 {
        0
    } else {
        span(lens, i - 1) + lens[i - 1] + 1
    }
}

/// Scanning from word `i`, the first word index whose counted span reaches
/// `pos`, or the number of words when none does.
pub open spec fn word_index_from(lens: Seq<int>, pos: int, i: int) -> int
    decreases lens.len() - i,
{
    if i >= lens.len() {
        lens.len() as int
    } else if span(lens, i) >= pos {
        i
    } else {
        word_index_from(lens, pos, i + 1)
    }
}

/// The index of the word that holds byte `pos`: the first whose counted span
/// reaches it, or the number of words when none does.
pub open spec fn word_index(lens: Seq<int>, pos: int) -> int {
    word_index_from(lens, pos, 0)
}

proof fn lemma_word_index_bound(lens: Seq<int>, pos: int, i: int)
    requires
        0 <= i <= lens.len(),
    ensures
        i <= word_index_from(lens, pos, i) <= lens.len(),
    decreases lens.len() - i,
{
    if i < lens.len() && span(lens, i) < pos {
        lemma_word_index_bound(lens, pos, i + 1);
    }
}

/// The byte length of each word range.
pub open spec fn range_lens(rs: Seq<(usize, usize)>) -> Seq<int> {
    rs.map_values(|p: (usize, usize)| p.1 - p.0)
}

/// Words joined by single spaces.
pub open spec fn join_words(ws: Seq<Seq<u8>>) -> Seq<u8>
    decreases ws.len(),
{
    if ws.len() == 0 {
        seq![]
    } else if ws.len() == 1 {
        ws[0]
    } else {
        join_words(ws.drop_last()) + seq![32u8] + ws.last()
    }
}

/// First word of a window of radius `r` around word `idx`.
pub open spec fn window_start(idx: int, r: int) -> int {
    if idx > r {
        idx - r
    } else {
        0
    }
}

/// One past the last word of a window of radius `r` around word `idx`,
/// in a text of `n` words.
pub open spec fn window_end(n: int, idx: int, r: int) -> int {
    if idx + r + 1 < n {
        idx + r + 1
    } else {
        n
    }
}

/// Word ranges of a text: `(start, end)` byte positions of each word.
pub open spec fn ranges_are_words(b: Seq<u8>, rs: Seq<(usize, usize)>, ws: Seq<Seq<u8>>) -> bool {
    &&& rs.len() == ws.len()
    &&& forall|k: int|
        0 <= k < rs.len() ==> {
            &&& (#[trigger] rs[k]).0 < rs[k].1 <= b.len()
            &&& b.subrange(rs[k].0 as int, rs[k].1 as int) == ws[k]
            &&& (rs[k].0 == 0 || is_space(b[rs[k].0 - 1]))
            &&& (rs[k].1 == b.len() || is_space(b[rs[k].1 as int]))
        }
}

/// The byte range of each word of `b`.
pub fn split_words(b: &[u8]) -> (r: Vec<(usize, usize)>)
    ensures
        ranges_are_words(b@, r@, words(b@)),
{
    let mut r: Vec<(usize, usize)> = Vec::new();
    let mut start: usize = 0;
    let mut in_word = false;
    let mut i: usize = 0;
    let ghost mut done: Seq<Seq<u8>> = seq![];
    assert(b@.subrange(0, b@.len() as int) =~= b@);
    assert(done + words(b@) =~= words(b@));
    while i < b.len()
        invariant
            i <= b@.len(),
            in_word ==> start < i,
            in_word ==> (start == 0 || is_space(b@[start - 1])),
            !in_word ==> (i == 0 || is_space(b@[i - 1])),
            ranges_are_words(b@, r@, done),
            words(b@) == done + split_from(
                b@.subrange(i as int, b@.len() as int),
                if in_word { b@.subrange(start as int, i as int) } else { seq![] },
            ),
        decreases b@.len() - i,
    {
        let c = b[i];
        let ghost rest = b@.subrange(i as int, b@.len() as int);
        let ghost cur = if in_word { b@.subrange(start as int, i as int) } else { seq![] };
        assert(rest[0] == c);
        assert(rest.drop_first() =~= b@.subrange(i + 1, b@.len() as int));
        if c == 32 || c == 9 || c == 10 || c == 11 || c == 12 || c == 13 {
            if in_word {
                r.push((start, i));
                proof {
                    done = done.push(cur);
                    assert(flush(cur) =~= seq![cur]);
                }
            } else {
                assert(flush(cur) =~= seq![]);
            }
            proof {
                assert(words(b@) =~= done + split_from(b@.subrange(i + 1, b@.len() as int), seq![]));
            }
            in_word = false;
        } else {
            if !in_word {
                start = i;
                in_word = true;
            }
            assert(cur.push(c) =~= b@.subrange(start as int, i + 1));
        }
        i = i + 1;
    }
    let ghost rest = b@.subrange(i as int, b@.len() as int);
    assert(rest.len() == 0);
    if in_word {
        r.push((start, i));
        proof {
            let cur = b@.subrange(start as int, i as int);
            assert(flush(cur) =~= seq![cur]);
            done = done.push(cur);
        }
    }
    assert(words(b@) =~= done);
    r
}

/// The index of the word that holds byte `match_pos`, counting each word's
/// length plus one separator; the number of words when the offset lies past
/// the last counted word.
pub fn find_word_index(words: &Vec<(usize, usize)>, match_pos: usize) -> (r: usize)
    requires
        forall|k: int| 0 <= k < words@.len() ==> (#[trigger] words@[k]).0 <= words@[k].1,
    ensures
        r == word_index(range_lens(words@), match_pos as int),
        r <= words@.len(),
{
    proof {
        lemma_word_index_bound(range_lens(words@), match_pos as int, 0);
    }
    let ghost lens = range_lens(words@);
    let mut acc: usize = 0;
    let mut i: usize = 0;
    while i < words.len()
        invariant
            i <= words@.len(),
            lens == range_lens(words@),
            forall|k: int| 0 <= k < words@.len() ==> (#[trigger] words@[k]).0 <= words@[k].1,
            word_index(lens, match_pos as int) == word_index_from(lens, match_pos as int, i as int),
            acc as int == if span(lens, i as int) < match_pos { span(lens, i as int) } else {
                match_pos as int
            },
        decreases words@.len() - i,
    {
        if acc >= match_pos {
            return i;
        }
        let (s, e) = words[i];
        let len = e - s;
        assert(lens[i as int] == len);
        if len >= match_pos - acc {
            acc = match_pos;
        } else {
            acc = acc + len + 1;
        }
        i = i + 1;
    }
    i
}

/// Valid UTF-8 words joined by spaces are valid UTF-8.
proof fn lemma_join_valid(ws: Seq<Seq<u8>>)
    requires
        forall|k: int| 0 <= k < ws.len() ==> valid_utf8(#[trigger] ws[k]),
    ensures
        valid_utf8(join_words(ws)),
    decreases ws.len(),
{
    if ws.len() > 1 {
        lemma_join_valid(ws.drop_last());
        let sp = seq![32u8];
        assert(valid_utf8(sp)) by {
            let c = seq![' '];
            assert((32u32 & 0x7F) == 32u32) by (bit_vector);
            assert(c.drop_first().len() == 0);
            assert(encode_utf8(c.drop_first()) =~= Seq::<u8>::empty());
            assert(c[0] as u32 == 32u32);
            assert(encode_scalar(32u32) =~= sp);
            assert(encode_utf8(c) =~= sp);
            encode_utf8_valid_utf8(c);
        }
        valid_utf8_concat(join_words(ws.drop_last()), sp);
        valid_utf8_concat(join_words(ws.drop_last()) + sp, ws.last());
    }
}

/// An excerpt: the words around a match, joined by single spaces, and
/// whether words were left out before or after it.
pub struct ContextWindow {
    pub text: String,
    pub truncated_start: bool,
    pub truncated_end: bool,
}

/// The bytes of the window of radius `r` around the word holding byte `pos`.
pub open spec fn window_bytes(b: Seq<u8>, pos: int, r: int) -> Seq<u8> {
    let ws = words(b);
    let idx = word_index(word_lens(ws), pos);
    join_words(ws.subrange(window_start(idx, r), window_end(ws.len() as int, idx, r)))
}

/// Whether the window of radius `r` around byte `pos` leaves out leading words.
pub open spec fn starts_truncated(b: Seq<u8>, pos: int, r: int) -> bool {
    window_start(word_index(word_lens(words(b)), pos), r) > 0
}

/// Whether the window of radius `r` around byte `pos` leaves out trailing words.
pub open spec fn ends_truncated(b: Seq<u8>, pos: int, r: int) -> bool {
    let n = words(b).len() as int;
    window_end(n, word_index(word_lens(words(b)), pos), r) < n
}

/// The window of up to `2 * context_words + 1` words centred on the word
/// that holds byte `match_pos` of `content`.
pub fn context_window(content: &str, match_pos: usize, context_words: usize) -> (w: ContextWindow)
    ensures
        encode_utf8(w.text@) == window_bytes(content.spec_bytes(), match_pos as int, context_words as int),
        w.truncated_start == starts_truncated(content.spec_bytes(), match_pos as int, context_words as int),
        w.truncated_end == ends_truncated(content.spec_bytes(), match_pos as int, context_words as int),
{
    let b = content.as_bytes();
    let ranges = split_words(b);
    let ghost ws = words(b@);
    assert(range_lens(ranges@) =~= word_lens(ws));
    let idx = find_word_index(&ranges, match_pos);
    let n = ranges.len();
    let r = context_words;
    let start = if idx > r { idx - r } else { 0 };
    let end = if idx < n && r < n - idx - 1 { idx + r + 1 } else { n };
    let mut out: Vec<u8> = Vec::new();
    let mut k = start;
    while k < end
        invariant
            start <= k <= end <= n,
            n == ws.len(),
            ranges_are_words(b@, ranges@, ws),
            out@ == join_words(ws.subrange(start as int, k as int)),
        decreases end - k,
    {
        let ghost base = out@;
        if k > start {
            out.push(32);
        }
        let ghost with_sep = out@;
        let (s, e) = ranges[k];
        let mut j = s;
        while j < e
            invariant
                s <= j <= e <= b@.len(),
                out@ == with_sep + b@.subrange(s as int, j as int),
            decreases e - j,
        {
            out.push(b[j]);
            assert(out@ =~= with_sep + b@.subrange(s as int, j + 1));
            j = j + 1;
        }
        let ghost sub = ws.subrange(start as int, k + 1);
        assert(sub.last() == ws[k as int]);
        if k > start {
            assert(sub.drop_last() =~= ws.subrange(start as int, k as int));
        } else {
            assert(sub.len() == 1);
        }
        assert(out@ =~= join_words(sub));
        k = k + 1;
    }
    proof {
        encode_utf8_valid_utf8(content@);
        let sub = ws.subrange(start as int, end as int);
        assert forall|t: int| 0 <= t < sub.len() implies valid_utf8(#[trigger] sub[t]) by {
            let q = ranges@[start + t];
            assert(sub[t] == ws[start + t]);
            lemma_ascii_bounded_valid(b@, q.0 as int, q.1 as int);
        }
        lemma_join_valid(sub);
    }
    let text = match string_from_utf8(out) {
        Some(t) => t,
        None => String::new(),
    };
    proof {
        decode_utf8_encode_utf8(join_words(ws.subrange(start as int, end as int)));
    }
    ContextWindow { text, truncated_start: start > 0, truncated_end: end < n }
}

/// Bytes that are no whitespace extend the word being read.
proof fn lemma_split_word(w: Seq<u8>, rest: Seq<u8>, cur: Seq<u8>)
    requires
        forall|i: int| 0 <= i < w.len() ==> !is_space(#[trigger] w[i]),
    ensures
        split_from(w + rest, cur) == split_from(rest, cur + w),
    decreases w.len(),
{
    if w.len() == 0 {
        assert(w + rest =~= rest);
        assert(cur + w =~= cur);
    } else {
        let t = w + rest;
        assert(t[0] == w[0]);
        assert(t.drop_first() =~= w.drop_first() + rest);
        lemma_split_word(w.drop_first(), rest, cur.push(w[0]));
        assert(cur.push(w[0]) + w.drop_first() =~= cur + w);
    }
}

/// Proper words: each non-empty and free of whitespace.
pub open spec fn proper_words(ws: Seq<Seq<u8>>) -> bool {
    forall|k: int|
        0 <= k < ws.len() ==> (#[trigger] ws[k]).len() > 0 && forall|i: int|
            0 <= i < ws[k].len() ==> !is_space(#[trigger] ws[k][i])
}

proof fn lemma_split_join(ws: Seq<Seq<u8>>, t: Seq<u8>)
    requires
        ws.len() >= 1,
        proper_words(ws),
    ensures
        split_from(join_words(ws) + t, seq![]) == ws.drop_last() + split_from(t, ws.last()),
    decreases ws.len(),
{
    let x = ws.last();
    assert(ws[ws.len() - 1] == x);
    if ws.len() == 1 {
        lemma_split_word(x, t, seq![]);
        assert(Seq::<u8>::empty() + x =~= x);
        assert(ws.drop_last() + split_from(t, x) =~= split_from(t, x));
    } else {
        let p = ws.drop_last();
        assert forall|k: int| 0 <= k < p.len() implies (#[trigger] p[k]).len() > 0 && forall|i: int|
            0 <= i < p[k].len() ==> !is_space(#[trigger] p[k][i]) by {
            assert(p[k] == ws[k]);
        }
        let big = seq![32u8] + x + t;
        assert(join_words(ws) + t =~= join_words(p) + big);
        lemma_split_join(p, big);
        assert(p[p.len() - 1] == p.last());
        assert(big[0] == 32u8);
        assert(big.drop_first() =~= x + t);
        assert(flush(p.last()) =~= seq![p.last()]);
        lemma_split_word(x, t, seq![]);
        assert(Seq::<u8>::empty() + x =~= x);
        assert(p.drop_last() + seq![p.last()] =~= p);
        assert(p.drop_last() + (seq![p.last()] + split_from(t, x)) =~= p + split_from(t, x));
    }
}

/// Proper words joined by single spaces split back into the same words.
pub proof fn lemma_words_of_join(ws: Seq<Seq<u8>>)
    requires
        proper_words(ws),
    ensures
        words(join_words(ws)) == ws,
{
    if ws.len() > 0 {
        lemma_split_join(ws, seq![]);
        assert(join_words(ws) + Seq::<u8>::empty() =~= join_words(ws));
        assert(flush(ws.last()) =~= seq![ws.last()]);
        assert(ws.drop_last() + seq![ws.last()] =~= ws);
    } else {
        assert(words(join_words(ws)) =~= ws);
    }
}

/// A text of proper words joined by single spaces, with no more words than
/// the radius, fits in one window whatever the offset: the window is the
/// whole text and nothing is left out at either end.
pub proof fn lemma_joined_short_text_whole(ws: Seq<Seq<u8>>, pos: int, r: int)
    requires
        proper_words(ws),
        ws.len() <= r,
    ensures
        window_bytes(join_words(ws), pos, r) == join_words(ws),
        !starts_truncated(join_words(ws), pos, r),
        !ends_truncated(join_words(ws), pos, r),
{
    lemma_words_of_join(ws);
    lemma_short_text_untruncated(join_words(ws), pos, r);
    lemma_word_index_bound(word_lens(ws), pos, 0);
    assert(ws.subrange(0, ws.len() as int) =~= ws);
}

/// A text of proper words joined by single spaces, where the match's word
/// has more than the radius of words on each side, loses words at both ends.
pub proof fn lemma_joined_inner_match_truncated(ws: Seq<Seq<u8>>, pos: int, r: int)
    requires
        proper_words(ws),
        0 <= r,
        r < word_index(word_lens(ws), pos),
        word_index(word_lens(ws), pos) + r + 1 < ws.len(),
    ensures
        starts_truncated(join_words(ws), pos, r),
        ends_truncated(join_words(ws), pos, r),
{
    lemma_words_of_join(ws);
    lemma_inner_match_truncated(join_words(ws), pos, r);
}

/// A text with no more words than the radius fits in one window whatever
/// the offset: nothing is left out at either end.
pub proof fn lemma_short_text_untruncated(b: Seq<u8>, pos: int, r: int)
    requires
        words(b).len() <= r,
    ensures
        !starts_truncated(b, pos, r),
        !ends_truncated(b, pos, r),
{
    lemma_word_index_bound(word_lens(words(b)), pos, 0);
}

/// When the match's word has more than the radius of words on each side,
/// words are left out at both ends.
pub proof fn lemma_inner_match_truncated(b: Seq<u8>, pos: int, r: int)
    requires
        0 <= r,
        r < word_index(word_lens(words(b)), pos),
        word_index(word_lens(words(b)), pos) + r + 1 < words(b).len(),
    ensures
        starts_truncated(b, pos, r),
        ends_truncated(b, pos, r),
{
}

} // verus!
