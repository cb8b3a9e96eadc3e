//! The addresses of the archive service's endpoints and pages.

use vstd::prelude::*;
use vstd::utf8::encode_utf8;
use crate::digits::{int_text, signed_digits};
use crate::text::ascii_chars;

verus! {

broadcast use vstd::string::group_string_axioms;

/// Bytes that a URL carries as they are: ASCII letters, digits, `-`, `.`,
/// `_` and `~`.
pub open spec fn is_unreserved(b: u8) -> bool {
    (48 <= b <= 57) || (65 <= b <= 90) || (97 <= b <= 122) || b == 45 || b == 46 || b == 95 || b
        == 126
}

/// Upper-case hexadecimal digit of a value below 16.
pub open spec fn hex_digit(d: int) -> u8 {
    if d < 10 {
        (48 + d) as u8
    } else {
        (55 + d) as u8
    }
}

/// Percent-encoding of bytes: each byte that is not unreserved becomes `%`
/// and two upper-case hexadecimal digits.
pub open spec fn percent_encoded(s: Seq<u8>) -> Seq<u8>
    decreases s.len(),
{
    if s.len() == 0 {
        seq![]
    } else if is_unreserved(s.last()) {
        percent_encoded(s.drop_last()) + seq![s.last()]
    } else {
        percent_encoded(s.drop_last()) + seq![
            37u8,
            hex_digit(s.last() as int / 16),
            hex_digit(s.last() as int % 16),
        ]
    }
}

/// Relies on `urlencoding::encode`: every byte but ASCII alphanumerics and
/// `-`, `.`, `_`, `~` is written as `%` and two upper-case hex digits.
#[verifier::external_body]
fn url_encode(s: &str) -> (r: String)
    ensures
        r@ == ascii_chars(percent_encoded(encode_utf8(s@))),
{
    urlencoding::encode(s).into_owned()
}

/// Query-string entries for a list of tags: `&tags=` and the encoded tag, for each.
pub open spec fn tags_query(tags: Seq<Seq<char>>) -> Seq<char>
    decreases tags.len(),
{
    if tags.len() == 0 {
        seq![]
    } else {
        tags_query(tags.drop_last()) + "&tags="@ + ascii_chars(percent_encoded(encode_utf8(tags.last())))
    }
}

/// `true` or `false`.
pub open spec fn bool_text(b: bool) -> Seq<char> {
    if b {
        "true"@
    } else {
        "false"@
    }
}

/// The address of the search endpoint for a query, a result limit, the
/// whole-word flag and a tag filter.
pub open spec fn search_address(
    server: Seq<char>,
    query: Seq<char>,
    limit: int,
    tags: Seq<Seq<char>>,
    whole: bool,
) -> Seq<char> {
    server + "/search_text?q="@ + ascii_chars(percent_encoded(encode_utf8(query))) + "&limit="@
        + ascii_chars(signed_digits(limit)) + "&whole_word="@ + bool_text(whole) + tags_query(tags)
}

/// The text of each string.
pub open spec fn views(v: Seq<String>) -> Seq<Seq<char>> {
    v.map_values(|s: String| s@)
}

/// The address of the search endpoint on `server`.
pub fn search_url(server: &str, query: &str, limit: u32, tags: &Vec<String>, whole: bool) -> (r: String)
    ensures
        r@ == search_address(server@, query@, limit as int, views(tags@), whole),
{
    let mut url = String::from_str(server);
    url.append("/search_text?q=");
    let q = url_encode(query);
    url.append(q.as_str());
    url.append("&limit=");
    let l = int_text(limit as i64);
    url.append(l.as_str());
    url.append("&whole_word=");
    if whole {
        url.append("true");
    } else {
        url.append("false");
    }
    let ghost head = url@;
    assert(head + tags_query(seq![]) =~= head);
    let mut i: usize = 0;
    while i < tags.len()
        invariant
            i <= tags@.len(),
            url@ == head + tags_query(views(tags@).subrange(0, i as int)),
        decreases tags@.len() - i,
    {
        url.append("&tags=");
        let t = url_encode(tags[i].as_str());
        url.append(t.as_str());
        let ghost done = views(tags@).subrange(0, i + 1);
        assert(done.drop_last() =~= views(tags@).subrange(0, i as int));
        assert(url@ =~= head + tags_query(done));
        i = i + 1;
    }
    assert(views(tags@).subrange(0, i as int) =~= views(tags@));
    url
}

/// The address of the archived copy of page `id`: `{server}/page/{id}`.
pub fn page_url(server: &str, id: i64) -> (r: String)
    ensures
        r@ == server@ + "/page/"@ + ascii_chars(signed_digits(id as int)),
{
    let mut url = String::from_str(server);
    url.append("/page/");
    let d = int_text(id);
    url.append(d.as_str());
    url
}

/// The address that returns the original URL of page `id`.
pub fn original_url_endpoint(server: &str, id: u32) -> (r: String)
    ensures
        r@ == server@ + "/get_url?id="@ + ascii_chars(signed_digits(id as int)),
{
    let mut url = String::from_str(server);
    url.append("/get_url?id=");
    let d = int_text(id as i64);
    url.append(d.as_str());
    url
}

/// The address of the save endpoint.
pub fn save_endpoint(server: &str) -> (r: String)
    ensures
        r@ == server@ + "/save/"@,
{
    let mut url = String::from_str(server);
    url.append("/save/");
    url
}

} // verus!
