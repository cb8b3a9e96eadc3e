//! Byte-level text model shared by the engine: occurrences of a needle,
//! ASCII whitespace, and the link between `&str` values and their bytes.

use vstd::prelude::*;
use vstd::utf8::*;

verus! {

broadcast use vstd::string::group_string_axioms;

/// True when `needle` occurs in `hay` starting at byte `p`.
pub open spec fn matches_at(hay: Seq<u8>, needle: Seq<u8>, p: int) -> bool {
    &&& 0 <= p
    &&& p + needle.len() <= hay.len()
    &&& hay.subrange(p, p + needle.len()) == needle
}

/// The start of every occurrence of `needle` in `hay` that begins before `k`,
/// in ascending order; overlapping occurrences are all listed.
pub open spec fn occurrences_below(hay: Seq<u8>, needle: Seq<u8>, k: int) -> Seq<int>
    decreases k,
{
    if k <= 0 {
        seq![]
    } else if matches_at(hay, needle, k - 1) {
        occurrences_below(hay, needle, k - 1).push(k - 1)
    } else {
        occurrences_below(hay, needle, k - 1)
    }
}

/// The start of every occurrence of `needle` in `hay`, ascending.
pub open spec fn occurrences(hay: Seq<u8>, needle: Seq<u8>) -> Seq<int> {
    occurrences_below(hay, needle, hay.len() as int + 1)
}

/// A name for what `str::to_lowercase` returns on a text.
pub uninterp spec fn lower_of(s: Seq<char>) -> Seq<char>;

/// Relies on `str::to_lowercase`: the result depends on the characters alone.
#[verifier::external_body]
pub(crate) fn lowercase(s: &str) -> (r: String)
    ensures
        r@ == lower_of(s@),
{
    s.to_lowercase()
}

/// Relies on `String::from_utf8`: it accepts exactly the valid UTF-8 byte
/// sequences and then holds those bytes.
#[verifier::external_body]
pub(crate) fn string_from_utf8(v: Vec<u8>) -> (r: Option<String>)
    ensures
        r is Some <==> valid_utf8(v@),
        r matches Some(s) ==> s@ == decode_utf8(v@),
{
    String::from_utf8(v).ok()
}

/// True when `n` occurs in `h` at byte `p`.
pub fn match_at(h: &[u8], n: &[u8], p: usize) -> (r: bool)
    ensures
        r == matches_at(h@, n@, p as int),
{
    if p > h.len() || n.len() > h.len() - p {
        return false;
    }
    let mut j: usize = 0;
    while j < n.len()
        invariant
            p + n@.len() <= h@.len(),
            h@.len() <= usize::MAX,
            j <= n@.len(),
            forall|t: int| 0 <= t < j ==> h@[p + t] == n@[t],
        decreases n@.len() - j,
    {
        if h[p + j] != n[j] {
            assert(h@.subrange(p as int, p + n@.len())[j as int] != n@[j as int]);
            return false;
        }
        j = j + 1;
    }
    assert(h@.subrange(p as int, p + n@.len()) =~= n@);
    true
}

/// Past the last byte at which a needle could start, nothing more is found.
pub proof fn lemma_occurrences_tail(hay: Seq<u8>, needle: Seq<u8>, k: int)
    requires
        needle.len() > 0,
        hay.len() <= k <= hay.len() + 1,
    ensures
        occurrences_below(hay, needle, k) == occurrences_below(hay, needle, hay.len() as int),
    decreases k - hay.len(),
{
    if k > hay.len() {
        assert(!matches_at(hay, needle, k - 1));
        lemma_occurrences_tail(hay, needle, k - 1);
    }
}

/// Every listed occurrence is a real one and the list ascends strictly.
pub proof fn lemma_occurrences_sorted(hay: Seq<u8>, needle: Seq<u8>, k: int)
    ensures
        forall|i: int|
            0 <= i < occurrences_below(hay, needle, k).len() ==> {
                &&& matches_at(hay, needle, #[trigger] occurrences_below(hay, needle, k)[i])
                &&& occurrences_below(hay, needle, k)[i] < k
            },
        forall|i: int, j: int|
            0 <= i < j < occurrences_below(hay, needle, k).len() ==> occurrences_below(
                hay,
                needle,
                k,
            )[i] < occurrences_below(hay, needle, k)[j],
    decreases k,
{
    if k > 0 {
        lemma_occurrences_sorted(hay, needle, k - 1);
        let prev = occurrences_below(hay, needle, k - 1);
        let cur = occurrences_below(hay, needle, k);
        if matches_at(hay, needle, k - 1) {
            assert(cur == prev.push(k - 1));
            assert forall|i: int| 0 <= i < cur.len() implies matches_at(hay, needle, #[trigger] cur[i])
                && cur[i] < k by {
                if i < prev.len() {
                    assert(cur[i] == prev[i]);
                }
            }
            assert forall|i: int, j: int| 0 <= i < j < cur.len() implies cur[i] < cur[j] by {
                assert(cur[i] == prev[i]);
                if j < prev.len() {
                    assert(cur[j] == prev[j]);
                }
            }
        }
    }
}

/// With no match below `k`, nothing is listed below `k`.
pub proof fn lemma_occurrences_none(hay: Seq<u8>, needle: Seq<u8>, k: int)
    requires
        forall|p: int| 0 <= p < k ==> !matches_at(hay, needle, p),
    ensures
        occurrences_below(hay, needle, k).len() == 0,
    decreases k,
{
    if k > 0 {
        lemma_occurrences_none(hay, needle, k - 1);
    }
}

/// The first match is listed first.
pub proof fn lemma_occurrences_first(hay: Seq<u8>, needle: Seq<u8>, i: int, k: int)
    requires
        0 <= i < k,
        matches_at(hay, needle, i),
        forall|p: int| 0 <= p < i ==> !matches_at(hay, needle, p),
    ensures
        occurrences_below(hay, needle, k).len() > 0,
        occurrences_below(hay, needle, k)[0] == i,
    decreases k,
{
    if k == i + 1 {
        lemma_occurrences_none(hay, needle, i);
    } else {
        lemma_occurrences_first(hay, needle, i, k - 1);
    }
}

/// A position that is a character boundary of a text stays one in any prefix
/// of it that ends on a boundary at or after it.
pub proof fn lemma_boundary_in_prefix(b: Seq<u8>, p: int, m: int)
    requires
        valid_utf8(b),
        0 <= p <= m <= b.len(),
        is_char_boundary(b, p),
        is_char_boundary(b, m),
    ensures
        valid_utf8(b.subrange(0, m)),
        is_char_boundary(b.subrange(0, m), p),
{
    broadcast use is_char_boundary_start_end_of_seq;

    valid_utf8_split(b, m);
    let head = b.subrange(0, m);
    if p < m && p > 0 {
        is_char_boundary_iff_not_is_continuation_byte(b, p);
        assert(head[p] == b[p]);
        is_char_boundary_iff_not_is_continuation_byte(head, p);
    }
}

/// ASCII whitespace: space, tab, line feed, vertical tab, form feed and
/// carriage return.
pub open spec fn is_space(b: u8) -> bool {
    b == 32 || b == 9 || b == 10 || b == 11 || b == 12 || b == 13
}

/// A run of bytes between two positions that are each a text edge or next to
/// an ASCII byte is itself valid UTF-8.
pub proof fn lemma_ascii_bounded_valid(b: Seq<u8>, s: int, e: int)
    requires
        valid_utf8(b),
        0 <= s <= e <= b.len(),
        s == 0 || b[s - 1] < 0x80,
        e == b.len() || b[e] < 0x80,
    ensures
        valid_utf8(b.subrange(s, e)),
{
    broadcast use is_char_boundary_start_end_of_seq;

    let tail = b.subrange(s, b.len() as int);
    if s == 0 {
        assert(tail =~= b);
    } else {
        is_char_boundary_iff_not_is_continuation_byte(b, s - 1);
        valid_utf8_split(b, s - 1);
        let from_prev = b.subrange(s - 1, b.len() as int);
        assert(pop_first_scalar(from_prev) =~= tail);
    }
    assert(valid_utf8(tail));
    if e < b.len() {
        assert(tail[e - s] == b[e]);
        is_char_boundary_iff_not_is_continuation_byte(tail, e - s);
    } else {
        assert(e - s == tail.len());
    }
    valid_utf8_split(tail, e - s);
    assert(tail.subrange(0, e - s) =~= b.subrange(s, e));
}

/// All bytes are ASCII.
pub open spec fn is_ascii_bytes(s: Seq<u8>) -> bool {
    forall|i: int| 0 <= i < s.len() ==> #[trigger] s[i] < 0x80
}

/// The characters that ASCII bytes stand for.
pub open spec fn ascii_chars(s: Seq<u8>) -> Seq<char> {
    s.map_values(|b: u8| b as char)
}

proof fn lemma_ascii_decode(s: Seq<u8>)
    requires
        is_ascii_bytes(s),
    ensures
        valid_utf8(s),
        decode_utf8(s) == ascii_chars(s),
    decreases s.len(),
{
    if s.len() > 0 {
        let b = s[0];
        assert(b < 0x80);
        assert((b & 0x7f) == b) by (bit_vector)
            requires
                b < 0x80,
        ;
        let rest = s.subrange(1, s.len() as int);
        assert(pop_first_scalar(s) =~= rest);
        lemma_ascii_decode(rest);
        assert(decode_utf8(s) =~= ascii_chars(s));
    } else {
        assert(decode_utf8(s) =~= ascii_chars(s));
    }
}

/// The text spelled by ASCII bytes.
pub fn ascii_string(v: Vec<u8>) -> (r: String)
    requires
        is_ascii_bytes(v@),
    ensures
        r@ == ascii_chars(v@),
{
    proof {
        lemma_ascii_decode(v@);
    }
    match string_from_utf8(v) {
        Some(t) => t,
        None => String::new(),
    }
}

} // verus!
