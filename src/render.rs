//! Laying out a result set: ordering, per-result headers, excerpts and the
//! message for an empty set.

use vstd::prelude::*;
use vstd::utf8::{decode_utf8, encode_utf8, encode_utf8_decode_utf8};
use crate::context::{context_window, ends_truncated, starts_truncated, window_bytes};
use crate::digits::signed_digits;
use crate::highlight::{highlight_query_in_context, highlighted, HighlightView, Highlighted};
use crate::locate::{as_ints, find_match_positions, regex_compiles, regex_match_starts, word_pattern};
use crate::text::{ascii_chars, lower_of, lowercase, occurrences};
use crate::timestamp::{chrono_text, display_layout, parse_datetime, timestamp_fields};
use crate::urls::page_url;

verus! {

broadcast use vstd::string::group_string_axioms;

/// Words shown on each side of a match.
pub const CONTEXT_WORDS: usize = 10;

/// Excerpts shown at most for one result.
pub const MAX_EXCERPTS: usize = 5;

/// One saved page as the search service returns it.
pub struct SearchResult {
    pub id: i32,
    pub url: String,
    pub title: String,
    pub tags: String,
    pub content: String,
    pub saved_path: String,
    pub created_at: String,
}

/// One excerpt line: the highlighted window and whether words were left out
/// before or after it (shown as ellipses).
pub struct Excerpt {
    pub truncated_start: bool,
    pub text: Highlighted,
    pub truncated_end: bool,
}

/// What an `Excerpt` holds.
pub struct ExcerptView {
    pub truncated_start: bool,
    pub text: HighlightView,
    pub truncated_end: bool,
}

impl View for Excerpt {
    type V = ExcerptView;

    open spec fn view(&self) -> ExcerptView {
        ExcerptView {
            truncated_start: self.truncated_start,
            text: self.text@,
            truncated_end: self.truncated_end,
        }
    }
}

/// The excerpt around byte `pos` of `content`, `r` words on each side, with
/// `query` marked in it.
pub open spec fn excerpt_at(content: Seq<char>, pos: int, query: Seq<char>, r: int) -> ExcerptView {
    let b = encode_utf8(content);
    ExcerptView {
        truncated_start: starts_truncated(b, pos, r),
        text: highlighted(decode_utf8(window_bytes(b, pos, r)), query),
        truncated_end: ends_truncated(b, pos, r),
    }
}

/// The view of each excerpt.
pub open spec fn excerpt_views(v: Seq<Excerpt>) -> Seq<ExcerptView> {
    v.map_values(|e: Excerpt| e@)
}

/// The excerpt around byte `match_pos` of `content`, with the query marked.
pub fn context_excerpt(content: &str, match_pos: usize, query: &str, context_words: usize) -> (r: Excerpt)
    ensures
        r@ == excerpt_at(content@, match_pos as int, query@, context_words as int),
{
    let w = context_window(content, match_pos, context_words);
    proof {
        encode_utf8_decode_utf8(w.text@);
    }
    let text = highlight_query_in_context(w.text.as_str(), query);
    Excerpt { truncated_start: w.truncated_start, text, truncated_end: w.truncated_end }
}

/// The excerpts for the first matches at `positions`, at most five, in order.
pub fn excerpts_at(content: &str, query: &str, positions: &Vec<usize>) -> (r: Vec<Excerpt>)
    ensures
        r@.len() == if positions@.len() < 5 { positions@.len() } else { 5 },
        forall|k: int|
            0 <= k < r@.len() ==> (#[trigger] r@[k])@ == excerpt_at(
                content@,
                positions@[k] as int,
                query@,
                10,
            ),
{
    let mut out: Vec<Excerpt> = Vec::new();
    let mut k: usize = 0;
    while k < positions.len() && k < MAX_EXCERPTS
        invariant
            k <= positions@.len(),
            k <= 5,
            out@.len() == k,
            forall|j: int|
                0 <= j < k ==> (#[trigger] out@[j])@ == excerpt_at(
                    content@,
                    positions@[j] as int,
                    query@,
                    10,
                ),
        decreases positions@.len() - k,
    {
        let e = context_excerpt(content, positions[k], query, CONTEXT_WORDS);
        out.push(e);
        k = k + 1;
    }
    out
}

/// The excerpts that `starts` gives: one around each of its first five
/// offsets, in order.
pub open spec fn excerpts_from(content: Seq<char>, query: Seq<char>, starts: Seq<int>, ex: Seq<ExcerptView>) -> bool {
    &&& ex.len() == if starts.len() < 5 { starts.len() } else { 5 }
    &&& forall|k: int| 0 <= k < ex.len() ==> #[trigger] ex[k] == excerpt_at(content, starts[k], query, 10)
}

/// What the excerpts of one result must be: none for a query that
/// lower-cases to nothing; in substring mode, those around the first
/// occurrences of the lower-cased query in the lower-cased content; in
/// whole-word mode, those around the first whole-word matches, or none when
/// the word pattern does not compile.
pub open spec fn excerpts_fit(content: Seq<char>, query: Seq<char>, whole: bool, ex: Seq<ExcerptView>) -> bool {
    let lq = lower_of(query);
    let lc = lower_of(content);
    if lq.len() == 0 {
        ex.len() == 0
    } else if !whole {
        excerpts_from(content, query, occurrences(encode_utf8(lc), encode_utf8(lq)), ex)
    } else if regex_compiles(word_pattern(lq)) {
        excerpts_from(content, query, regex_match_starts(word_pattern(lq), lc), ex)
    } else {
        ex.len() == 0
    }
}

/// Finds the query in `content` and cuts an excerpt around each of its
/// first five matches.
pub fn search_excerpts(content: &str, query: &str, whole: bool) -> (r: Vec<Excerpt>)
    ensures
        excerpts_fit(content@, query@, whole, excerpt_views(r@)),
{
    let content_lower = lowercase(content);
    let query_lower = lowercase(query);
    if query_lower.as_str().is_empty() {
        let out: Vec<Excerpt> = Vec::new();
        assert(excerpt_views(out@) =~= seq![]);
        return out;
    }
    let positions = find_match_positions(content_lower.as_str(), query_lower.as_str(), whole);
    let out = excerpts_at(content, query, &positions);
    proof {
        let ex = excerpt_views(out@);
        assert forall|k: int| 0 <= k < ex.len() implies #[trigger] ex[k] == excerpt_at(
            content@,
            as_ints(positions@)[k],
            query@,
            10,
        ) by {
            assert(out@[k]@ == ex[k]);
            assert(as_ints(positions@)[k] == positions@[k] as int);
        }
    }
    out
}

/// One result ready for display.
pub struct RenderedResult {
    pub timestamp: String,
    pub id: i32,
    pub url: String,
    pub title: String,
    pub page_url: String,
    pub excerpts: Vec<Excerpt>,
}

/// `v` is the rendering of `res` for a query on a server.
pub open spec fn rendered_from(
    v: RenderedResult,
    res: SearchResult,
    query: Seq<char>,
    server: Seq<char>,
    whole: bool,
) -> bool {
    &&& timestamp_fields(res.created_at@) matches Some(f) && v.timestamp@ == chrono_text(
        f,
        display_layout(),
    )
    &&& v.id == res.id
    &&& v.url@ == res.url@
    &&& v.title@ == res.title@
    &&& v.page_url@ == server + "/page/"@ + ascii_chars(signed_digits(res.id as int))
    &&& excerpts_fit(res.content@, query, whole, excerpt_views(v.excerpts@))
}

/// Renders one result: its timestamp, identity, page link and excerpts.
/// Fails when its timestamp is in neither accepted layout.
pub fn render_result(result: &SearchResult, query: &str, server: &str, whole: bool) -> (r: Result<
    RenderedResult,
    chrono::ParseError,
>)
    ensures
        r is Ok <==> timestamp_fields(result.created_at@) is Some,
        r matches Ok(v) ==> rendered_from(v, *result, query@, server@, whole),
{
    let created_at = match parse_datetime(result.created_at.as_str()) {
        Ok(t) => t,
        Err(e) => return Err(e),
    };
    let timestamp = created_at.to_text();
    let page = page_url(server, result.id as i64);
    let excerpts = search_excerpts(result.content.as_str(), query, whole);
    Ok(RenderedResult {
        timestamp,
        id: result.id,
        url: result.url.clone(),
        title: result.title.clone(),
        page_url: page,
        excerpts,
    })
}

/// The tag list of the no-results message: empty without tags, else
/// ` with tags [a, b]`.
pub open spec fn tag_info_text(tags: Seq<Seq<char>>) -> Seq<char> {
    if tags.len() == 0 {
        seq![]
    } else {
        " with tags ["@ + joined(tags) + "]"@
    }
}

/// Texts joined by `, `.
pub open spec fn joined(tags: Seq<Seq<char>>) -> Seq<char>
    decreases tags.len(),
{
    if tags.len() == 0 {
        seq![]
    } else if tags.len() == 1 {
        tags[0]
    } else {
        joined(tags.drop_last()) + ", "@ + tags.last()
    }
}

/// The tag list shown in the no-results message.
pub fn tag_info(tags: &Vec<String>) -> (r: String)
    ensures
        r@ == tag_info_text(crate::urls::views(tags@)),
{
    let ghost ts = crate::urls::views(tags@);
    if tags.len() == 0 {
        return String::new();
    }
    let mut out = String::from_str(" with tags [");
    let ghost head = out@;
    out.append(tags[0].as_str());
    assert(ts.subrange(0, 1).len() == 1);
    let mut i: usize = 1;
    while i < tags.len()
        invariant
            1 <= i <= tags@.len(),
            ts == crate::urls::views(tags@),
            out@ == head + joined(ts.subrange(0, i as int)),
        decreases tags@.len() - i,
    {
        out.append(", ");
        out.append(tags[i].as_str());
        let ghost done = ts.subrange(0, i + 1);
        assert(done.drop_last() =~= ts.subrange(0, i as int));
        assert(out@ =~= head + joined(done));
        i = i + 1;
    }
    assert(ts.subrange(0, i as int) =~= ts);
    out.append("]");
    out
}

/// The message for an empty result set, with the query and the tag list.
pub fn no_results_message(query: &str, tags: &Vec<String>) -> (r: String)
    ensures
        r@ == "No results found for query: "@ + query@ + tag_info_text(crate::urls::views(tags@)),
{
    let mut out = String::from_str("No results found for query: ");
    out.append(query);
    let t = tag_info(tags);
    out.append(t.as_str());
    out
}

/// What a search shows: one message when nothing was found, else the
/// results in display order; `failure` holds the error that stopped the
/// rendering at a result whose timestamp could not be read.
pub enum Report {
    NoResults { query: String, tag_info: String },
    Results { rendered: Vec<RenderedResult>, failure: Option<chrono::ParseError> },
}

/// `rendered` renders `results` in reverse order, stopping (with `failed`)
/// just before the first one whose timestamp cannot be read.
pub open spec fn results_fit(
    rendered: Seq<RenderedResult>,
    failed: bool,
    results: Seq<SearchResult>,
    query: Seq<char>,
    server: Seq<char>,
    whole: bool,
) -> bool {
    let n = results.len() as int;
    let k = rendered.len() as int;
    &&& k <= n
    &&& forall|j: int|
        0 <= j < k ==> rendered_from(#[trigger] rendered[j], results[n - 1 - j], query, server, whole)
    &&& (failed <==> k < n)
    &&& k < n ==> timestamp_fields(results[n - 1 - k].created_at@) is None
}

/// Lays out a result set for display: the results in reverse of the order
/// received, each with at most five excerpts, until one fails to render.
pub fn render_search_results(
    results: &Vec<SearchResult>,
    query: &str,
    server: &str,
    tags: &Vec<String>,
    whole: bool,
) -> (r: Report)
    ensures
        results@.len() == 0 ==> (r matches Report::NoResults { query: q, tag_info: t } && q@
            == query@ && t@ == tag_info_text(crate::urls::views(tags@))),
        results@.len() > 0 ==> (r matches Report::Results { rendered, failure } && results_fit(
            rendered@,
            failure is Some,
            results@,
            query@,
            server@,
            whole,
        )),
{
    if results.len() == 0 {
        return Report::NoResults { query: String::from_str(query), tag_info: tag_info(tags) };
    }
    let n = results.len();
    let mut rendered: Vec<RenderedResult> = Vec::new();
    let mut i: usize = n;
    while i > 0
        invariant
            i <= n == results@.len(),
            rendered@.len() == n - i,
            forall|j: int|
                0 <= j < n - i ==> rendered_from(#[trigger] rendered@[j], results@[n - 1 - j], query@, server@, whole),
        decreases i,
    {
        match render_result(&results[i - 1], query, server, whole) {
            Ok(v) => rendered.push(v),
            Err(e) => {
                return Report::Results { rendered, failure: Some(e) };
            },
        }
        i = i - 1;
    }
    Report::Results { rendered, failure: None }
}

} // verus!
