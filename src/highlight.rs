//! Marking the query inside an excerpt.

use vstd::prelude::*;
use vstd::string::StringSliceAdditionalSpecFns;
use vstd::utf8::*;
use crate::text::{
    lemma_boundary_in_prefix, lemma_occurrences_first, lemma_occurrences_none, lemma_occurrences_sorted,
    lower_of, lowercase,
    match_at, matches_at, occurrences,
};

verus! {

broadcast use vstd::string::group_string_axioms;

/// An excerpt with the query marked for emphasis, or left as it was when the
/// query could not be placed in it.
pub enum Highlighted {
    Marked { prefix: String, matched: String, suffix: String },
    Plain(String),
}

/// What a `Highlighted` holds, as character sequences.
pub enum HighlightView {
    Marked { prefix: Seq<char>, matched: Seq<char>, suffix: Seq<char> },
    Plain(Seq<char>),
}

impl View for Highlighted {
    type V = HighlightView;

    open spec fn view(&self) -> HighlightView {
        match self {
            Highlighted::Marked { prefix, matched, suffix } => HighlightView::Marked {
                prefix: prefix@,
                matched: matched@,
                suffix: suffix@,
            },
            Highlighted::Plain(t) => HighlightView::Plain(t@),
        }
    }
}

/// Where the mark starts in a text with bytes `b`: the first occurrence of
/// the lower-cased query `lq` in the lower-cased text `lc`, provided that
/// this position and the position `qlen` bytes after it are character
/// boundaries of the text itself.
pub open spec fn mark_start(b: Seq<u8>, lc: Seq<u8>, lq: Seq<u8>, qlen: int) -> Option<int> {
    let occ = occurrences(lc, lq);
    if occ.len() > 0 && occ[0] + qlen <= b.len() && is_char_boundary(b, occ[0])
        && is_char_boundary(b, occ[0] + qlen) {
        Some(occ[0])
    } else {
        None
    }
}

/// The highlighting of text `t`, given its lower-cased form `lt`, the
/// lower-cased query `lq`, and the byte length `qlen` of the query as typed.
pub open spec fn highlighted_with(t: Seq<char>, lt: Seq<char>, lq: Seq<char>, qlen: int) -> HighlightView {
    let b = encode_utf8(t);
    match mark_start(b, encode_utf8(lt), encode_utf8(lq), qlen) {
        Some(p) => HighlightView::Marked {
            prefix: decode_utf8(b.subrange(0, p)),
            matched: decode_utf8(b.subrange(p, p + qlen)),
            suffix: decode_utf8(b.subrange(p + qlen, b.len() as int)),
        },
        None => HighlightView::Plain(t),
    }
}

/// The highlighting of text `t` for query `q`: the span of `q`'s length that
/// starts where the lower-cased query first occurs in the lower-cased text.
pub open spec fn highlighted(t: Seq<char>, q: Seq<char>) -> HighlightView {
    highlighted_with(t, lower_of(t), lower_of(q), encode_utf8(q).len() as int)
}

/// Marks, in `context_text`, the `query_len` bytes that start where
/// `query_lower` first occurs in `context_lower`; the text stays plain when
/// there is no occurrence or the span does not fit the text's characters.
pub fn highlight_lowered(
    context_text: &str,
    context_lower: &str,
    query_lower: &str,
    query_len: usize,
) -> (r: Highlighted)
    ensures
        r@ == highlighted_with(context_text@, context_lower@, query_lower@, query_len as int),
{
    let h = context_lower.as_bytes();
    let n = query_lower.as_bytes();
    let ghost b = context_text.spec_bytes();
    let mut found: Option<usize> = None;
    let mut i: usize = 0;
    while found.is_none() && i < h.len()
        invariant
            i <= h@.len(),
            match found {
                None => forall|p: int| 0 <= p < i ==> !matches_at(h@, n@, p),
                Some(p) => p == i && matches_at(h@, n@, p as int) && forall|q: int|
                    0 <= q < p ==> !matches_at(h@, n@, q),
            },
        decreases h@.len() - i + (if found is None { 1int } else { 0int }),
    {
        if match_at(h, n, i) {
            found = Some(i);
        } else {
            i = i + 1;
        }
    }
    if found.is_none() && match_at(h, n, i) {
        found = Some(i);
    }
    proof {
        match found {
            Some(p) => lemma_occurrences_first(h@, n@, p as int, h@.len() as int + 1),
            None => {
                assert forall|p: int| 0 <= p < h@.len() as int + 1 implies !matches_at(h@, n@, p) by {
                    if p == h@.len() {
                        assert(p == i);
                    }
                }
                lemma_occurrences_none(h@, n@, h@.len() as int + 1);
            },
        }
        encode_utf8_valid_utf8(context_text@);
        encode_utf8_decode_utf8(context_text@);
    }
    match found {
        Some(p) => {
            let text_len = context_text.as_bytes().len();
            if query_len <= text_len && p <= text_len - query_len
                && context_text.is_char_boundary(p) && context_text.is_char_boundary(p + query_len) {
                let end = p + query_len;
                proof {
                    lemma_boundary_in_prefix(b, p as int, end as int);
                }
                let (head, tail) = context_text.split_at(end);
                let (before, mid) = head.split_at(p);
                assert(before.spec_bytes() =~= b.subrange(0, p as int));
                assert(mid.spec_bytes() =~= b.subrange(p as int, end as int));
                let prefix = before.to_owned();
                let matched = mid.to_owned();
                let suffix = tail.to_owned();
                proof {
                    encode_utf8_decode_utf8(before@);
                    encode_utf8_decode_utf8(mid@);
                    encode_utf8_decode_utf8(tail@);
                }
                Highlighted::Marked { prefix, matched, suffix }
            } else {
                Highlighted::Plain(context_text.to_owned())
            }
        },
        None => Highlighted::Plain(context_text.to_owned()),
    }
}

/// Marks the first case-insensitive occurrence of `query` in `context_text`,
/// keeping the casing of the text.
pub fn highlight_query_in_context(context_text: &str, query: &str) -> (r: Highlighted)
    ensures
        r@ == highlighted(context_text@, query@),
{
    let query_lower = lowercase(query);
    let context_lower = lowercase(context_text);
    highlight_lowered(context_text, context_lower.as_str(), query_lower.as_str(), query.as_bytes().len())
}

/// Highlighting text that came back unmarked leaves it unmarked again: the
/// plain output is the input itself, so a second pass gives the same result.
pub proof fn lemma_plain_output_is_fixed_point(t: Seq<char>, q: Seq<char>)
    requires
        highlighted(t, q) is Plain,
    ensures
        highlighted(t, q) == HighlightView::Plain(t),
        highlighted(highlighted(t, q)->Plain_0, q) == highlighted(t, q),
{
    let b = encode_utf8(t);
    let start = mark_start(b, encode_utf8(lower_of(t)), encode_utf8(lower_of(q)), encode_utf8(q).len() as int);
    assert(start is None);
    assert(highlighted(t, q) == HighlightView::Plain(t));
}

proof fn lemma_ascii_piece(t: Seq<char>, x: int, y: int)
    requires
        is_ascii_chars(t),
        0 <= x <= y <= t.len(),
    ensures
        decode_utf8(encode_utf8(t).subrange(x, y)) == t.subrange(x, y),
{
    let c = t.subrange(x, y);
    assert(is_ascii_chars(c)) by {
        assert forall|i: int| 0 <= i < c.len() implies '\0' <= #[trigger] c[i] <= '\u{7f}' by {
            assert(c[i] == t[x + i]);
        }
    }
    is_ascii_chars_encode_utf8(t);
    is_ascii_chars_encode_utf8(c);
    assert(encode_utf8(c) =~= encode_utf8(t).subrange(x, y)) by {
        assert forall|i: int| 0 <= i < c.len() implies encode_utf8(c)[i] == encode_utf8(t).subrange(
            x,
            y,
        )[i] by {
            assert(c[i] == t[x + i]);
            assert(encode_utf8(t)[x + i] == t[x + i] as u8);
            assert(encode_utf8(c)[i] == c[i] as u8);
        }
    }
    encode_utf8_decode_utf8(c);
}

proof fn lemma_ascii_boundary(t: Seq<char>, x: int)
    requires
        is_ascii_chars(t),
        0 <= x <= t.len(),
    ensures
        is_char_boundary(encode_utf8(t), x),
{
    broadcast use is_char_boundary_start_end_of_seq;

    is_ascii_chars_encode_utf8(t);
    encode_utf8_valid_utf8(t);
    if x < t.len() {
        assert(encode_utf8(t)[x] == t[x] as u8);
        is_char_boundary_iff_not_is_continuation_byte(encode_utf8(t), x);
    }
}

/// In an ASCII text, when the lower-cased query first occurs at byte `p` of
/// the lower-cased text and the query's length fits from there, the mark is
/// the text's own characters from `p`, in the text's casing, with the text
/// before and after it around the mark.
pub proof fn lemma_ascii_mark_is_source_span(t: Seq<char>, q: Seq<char>, p: int)
    requires
        is_ascii_chars(t),
        occurrences(encode_utf8(lower_of(t)), encode_utf8(lower_of(q))).len() > 0,
        occurrences(encode_utf8(lower_of(t)), encode_utf8(lower_of(q)))[0] == p,
        p + encode_utf8(q).len() <= t.len(),
    ensures
        highlighted(t, q) == (HighlightView::Marked {
            prefix: t.subrange(0, p),
            matched: t.subrange(p, p + encode_utf8(q).len()),
            suffix: t.subrange(p + encode_utf8(q).len(), t.len() as int),
        }),
{
    let lt = encode_utf8(lower_of(t));
    let lq = encode_utf8(lower_of(q));
    let e = p + encode_utf8(q).len();
    lemma_occurrences_sorted(lt, lq, lt.len() as int + 1);
    assert(matches_at(lt, lq, occurrences(lt, lq)[0]));
    is_ascii_chars_encode_utf8(t);
    lemma_ascii_boundary(t, p);
    lemma_ascii_boundary(t, e);
    lemma_ascii_piece(t, 0, p);
    lemma_ascii_piece(t, p, e);
    lemma_ascii_piece(t, e, t.len() as int);
}

} // verus!
