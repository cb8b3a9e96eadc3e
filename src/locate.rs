//! Finding where a query occurs in a document, in substring or whole-word mode.

use vstd::prelude::*;
use vstd::string::StringSliceAdditionalSpecFns;
use crate::text::{lemma_occurrences_sorted, lemma_occurrences_tail, match_at, occurrences, occurrences_below};

verus! {

broadcast use vstd::string::group_string_axioms;

/// The characters that have a meaning of their own in a regular expression.
pub open spec fn is_meta_char(c: char) -> bool {
    c == '\\' || c == '.' || c == '+' || c == '*' || c == '?' || c == '(' || c == ')' || c == '|'
        || c == '[' || c == ']' || c == '{' || c == '}' || c == '^' || c == '$' || c == '#' || c
        == '&' || c == '-' || c == '~'
}

/// `s` with a backslash in front of each meta character, so that a regular
/// expression reads it literally.
pub open spec fn escaped(s: Seq<char>) -> Seq<char>
    decreases s.len(),
{
    if s.len() == 0 {
        seq![]
    } else if is_meta_char(s.last()) {
        escaped(s.drop_last()) + seq!['\\', s.last()]
    } else {
        escaped(s.drop_last()) + seq![s.last()]
    }
}

/// The whole-word pattern for a lower-cased query: the escaped literal
/// between two word-boundary assertions.
pub open spec fn word_pattern(q: Seq<char>) -> Seq<char> {
    seq!['\\', 'b'] + escaped(q) + seq!['\\', 'b']
}

/// A name for whether `regex::Regex::new` accepts a pattern.
pub uninterp spec fn regex_compiles(pattern: Seq<char>) -> bool;

/// Relies on `regex::escape`: every meta character is preceded by a backslash,
/// every other character is kept.
#[verifier::external_body]
fn escape_literal(text: &str) -> (r: String)
    ensures
        r@ == escaped(text@),
{
    regex::escape(text)
}

/// A name for the start offsets of the successive matches that
/// `regex::Regex::find_iter` reports for a pattern in a haystack.
pub uninterp spec fn regex_match_starts(pattern: Seq<char>, hay: Seq<char>) -> Seq<int>;

/// Relies on `regex::Regex::new`, whose success depends on the pattern
/// alone, and on `regex::Regex::find_iter`, which reports successive
/// matches, left to right, each starting inside the haystack; both depend on
/// the pattern and the haystack alone.
#[verifier::external_body]
fn regex_find_starts(pattern: &str, hay: &str) -> (r: Option<Vec<usize>>)
    ensures
        r is Some <==> regex_compiles(pattern@),
        r matches Some(v) ==> as_ints(v@) == regex_match_starts(pattern@, hay@),
        r matches Some(v) ==> forall|i: int| 0 <= i < v@.len() ==> v@[i] <= hay.spec_bytes().len(),
        r matches Some(v) ==> forall|i: int, j: int| 0 <= i < j < v@.len() ==> v@[i] <= v@[j],
{
    regex::Regex::new(pattern).ok().map(|re| re.find_iter(hay).map(|m| m.start()).collect())
}

/// Offsets as mathematical integers.
pub open spec fn as_ints(v: Seq<usize>) -> Seq<int> {
    v.map_values(|p: usize| p as int)
}

/// Byte offsets of every occurrence of `query_lower` in `content_lower`.
///
/// Substring mode lists every occurrence, overlapping ones included, in
/// ascending order. Whole-word mode lists the matches of the query as a
/// whole word, left to right, and none at all when the pattern built from
/// it does not compile.
pub fn find_match_positions(content_lower: &str, query_lower: &str, whole: bool) -> (r: Vec<usize>)
    requires
        query_lower@.len() > 0,
    ensures
        !whole ==> as_ints(r@) == occurrences(content_lower.spec_bytes(), query_lower.spec_bytes()),
        whole && !regex_compiles(word_pattern(query_lower@)) ==> r@.len() == 0,
        whole && regex_compiles(word_pattern(query_lower@)) ==> as_ints(r@) == regex_match_starts(
            word_pattern(query_lower@),
            content_lower@,
        ),
        forall|i: int| 0 <= i < r@.len() ==> r@[i] <= content_lower.spec_bytes().len(),
        forall|i: int, j: int| 0 <= i < j < r@.len() ==> r@[i] <= r@[j],
{
    if whole {
        let mut pattern = String::from_str("\\b");
        let lit = escape_literal(query_lower);
        pattern.append(lit.as_str());
        pattern.append("\\b");
        proof {
            reveal_strlit("\\b");
            assert(pattern@ =~= word_pattern(query_lower@));
        }
        match regex_find_starts(pattern.as_str(), content_lower) {
            Some(v) => v,
            None => Vec::new(),
        }
    } else {
        let h = content_lower.as_bytes();
        let n = query_lower.as_bytes();
        assert(n@.len() > 0);
        let mut positions: Vec<usize> = Vec::new();
        let mut i: usize = 0;
        while i < h.len()
            invariant
                i <= h@.len(),
                h@ == content_lower.spec_bytes(),
                n@ == query_lower.spec_bytes(),
                n@.len() > 0,
                as_ints(positions@) == occurrences_below(h@, n@, i as int),
            decreases h@.len() - i,
        {
            if match_at(h, n, i) {
                positions.push(i);
            }
            assert(as_ints(positions@) =~= occurrences_below(h@, n@, i + 1));
            i = i + 1;
        }
        proof {
            lemma_occurrences_tail(h@, n@, h@.len() as int + 1);
            lemma_occurrences_sorted(h@, n@, h@.len() as int + 1);
            assert forall|i: int| 0 <= i < positions@.len() implies positions@[i] <= h@.len() by {
                assert(as_ints(positions@)[i] == positions@[i] as int);
            }
            assert forall|i: int, j: int| 0 <= i < j < positions@.len() implies positions@[i]
                <= positions@[j] by {
                assert(as_ints(positions@)[i] == positions@[i] as int);
                assert(as_ints(positions@)[j] == positions@[j] as int);
            }
        }
        positions
    }
}

/// In a text made of one repeated byte, searching for that byte alone finds
/// every position, overlapping as they are: `0, 1, ..., n - 1`.
pub proof fn lemma_repeated_byte_offsets(hay: Seq<u8>, c: u8)
    requires
        forall|i: int| 0 <= i < hay.len() ==> hay[i] == c,
    ensures
        occurrences(hay, seq![c]) == Seq::new(hay.len(), |i: int| i),
{
    lemma_repeated_below(hay, c, hay.len() as int);
    lemma_occurrences_tail(hay, seq![c], hay.len() as int + 1);
}

proof fn lemma_repeated_below(hay: Seq<u8>, c: u8, k: int)
    requires
        forall|i: int| 0 <= i < hay.len() ==> hay[i] == c,
        0 <= k <= hay.len(),
    ensures
        occurrences_below(hay, seq![c], k) == Seq::new(k as nat, |i: int| i),
    decreases k,
{
    if k > 0 {
        lemma_repeated_below(hay, c, k - 1);
        assert(hay.subrange(k - 1, k) =~= seq![c]);
        assert(occurrences_below(hay, seq![c], k) =~= Seq::new(k as nat, |i: int| i));
    } else {
        assert(occurrences_below(hay, seq![c], k) =~= Seq::new(k as nat, |i: int| i));
    }
}

} // verus!
