//! URL parsing and `application/x-www-form-urlencoded` handling, done by
//! the `url` crate and reached through the trusted items below.
use vstd::prelude::*;

use crate::text::{lower, lower_vec, chars_of, string_of};

verus! {

/// What the proxy reads of a parsed URL.
pub struct ParsedUrl {
    /// `Url::scheme`.
    pub scheme: String,
    /// `Url::host_str`.
    pub host: Option<String>,
    /// The serialization after `set_fragment(None)`.
    pub without_fragment: String,
    /// The serialization after `set_fragment(None)` and `set_query(None)`.
    pub without_query: String,
    /// `Url::path`.
    pub path: String,
}

pub open spec fn opt_string_view(o: Option<String>) -> Option<Seq<char>> {
    match o {
        Some(s) => Some(s@),
        None => None,
    }
}

/// The outcome of `url::Url::parse` on a string: on success the scheme,
/// the host, the serialization without fragment, the serialization
/// without query and fragment, and the path; on failure the error's text.
pub uninterp spec fn url_parse_outcome(raw: Seq<char>) -> Result<
    (Seq<char>, Option<Seq<char>>, Seq<char>, Seq<char>, Seq<char>),
    Seq<char>,
>;

pub open spec fn parsed_url_view(u: ParsedUrl) -> (
    Seq<char>,
    Option<Seq<char>>,
    Seq<char>,
    Seq<char>,
    Seq<char>,
) {
    (u.scheme@, opt_string_view(u.host), u.without_fragment@, u.without_query@, u.path@)
}

/// Calls `url::Url::parse` and reads the scheme, the host and two
/// serializations of the result. The contract names the outcome
/// (`url_parse_outcome`); what the WHATWG parser accepts is not restated.
#[verifier::external_body]
pub(crate) fn parse_url(raw: &str) -> (r: Result<ParsedUrl, String>)
    ensures
        match r {
            Ok(u) => url_parse_outcome(raw@) == Ok::<_, Seq<char>>(parsed_url_view(u)),
            Err(e) => url_parse_outcome(raw@) == Err::<
                (Seq<char>, Option<Seq<char>>, Seq<char>, Seq<char>, Seq<char>),
                _,
            >(e@),
        },
{
    match url::Url::parse(raw) {
        Ok(mut parsed) => {
            let scheme = parsed.scheme().to_string();
            let host = parsed.host_str().map(|h| h.to_string());
            let path = parsed.path().to_string();
            parsed.set_fragment(None);
            let without_fragment = parsed.to_string();
            parsed.set_query(None);
            let without_query = parsed.to_string();
            Ok(ParsedUrl { scheme, host, without_fragment, without_query, path })
        },
        Err(err) => Err(err.to_string()),
    }
}

/// Spec of the host of a URL, `None` when it does not parse or has no host.
pub open spec fn url_host(raw: Seq<char>) -> Option<Seq<char>> {
    match url_parse_outcome(raw) {
        Ok(p) => p.1,
        Err(_) => None,
    }
}

/// `Url::parse(raw).ok().and_then(|u| u.host_str().map(str::to_owned))`.
pub fn host_of(raw: &str) -> (r: Option<String>)
    ensures
        opt_string_view(r) == url_host(raw@),
{
    match parse_url(raw) {
        Ok(u) => u.host,
        Err(_) => None,
    }
}

/// The host of a URL in ASCII lower case.
pub open spec fn url_host_lower(raw: Seq<char>) -> Option<Seq<char>> {
    match url_host(raw) {
        Some(h) => Some(lower(h)),
        None => None,
    }
}

/// `Url::parse(raw).ok().and_then(|p| p.host_str().map(str::to_ascii_lowercase))`.
pub fn host_lower_of(raw: &str) -> (r: Option<String>)
    ensures
        opt_string_view(r) == url_host_lower(raw@),
{
    match host_of(raw) {
        Some(h) => {
            let v = chars_of(h.as_str());
            let l = lower_vec(&v);
            Some(string_of(&l))
        },
        None => None,
    }
}

/// What `url::form_urlencoded::byte_serialize` makes of the UTF-8 bytes of
/// a string.
pub uninterp spec fn form_urlencoded_bytes(s: Seq<char>) -> Seq<char>;

/// Calls `url::form_urlencoded::byte_serialize` on the string's bytes and
/// collects the pieces; the result is named `form_urlencoded_bytes`.
#[verifier::external_body]
pub(crate) fn form_urlencode(s: &str) -> (r: String)
    ensures
        r@ == form_urlencoded_bytes(s@),
{
    url::form_urlencoded::byte_serialize(s.as_bytes()).collect::<String>()
}

/// The name/value pairs that `url::form_urlencoded::parse` reads from a
/// query string, percent-decoded, in order.
pub uninterp spec fn form_urlencoded_pairs(query: Seq<char>) -> Seq<(Seq<char>, Seq<char>)>;

/// Calls `url::form_urlencoded::parse` on the query's bytes and owns each
/// decoded pair; the pairs are named `form_urlencoded_pairs`.
#[verifier::external_body]
pub(crate) fn parse_query_pairs(query: &str) -> (r: Vec<(String, String)>)
    ensures
        r@.len() == form_urlencoded_pairs(query@).len(),
        forall|i: int|
            0 <= i < r@.len() ==> (#[trigger] r@[i].0@, r@[i].1@) == form_urlencoded_pairs(
                query@,
            )[i],
{
    url::form_urlencoded::parse(query.as_bytes()).map(|(k, v)| (k.into_owned(), v.into_owned())).collect()
}

/// The query string that `url::form_urlencoded::Serializer` writes for
/// the given pairs.
pub uninterp spec fn form_urlencoded_serialized(pairs: Seq<(Seq<char>, Seq<char>)>) -> Seq<char>;

pub open spec fn pairs_view(pairs: Seq<(String, String)>) -> Seq<(Seq<char>, Seq<char>)> {
    pairs.map_values(|p: (String, String)| (p.0@, p.1@))
}

/// Calls `url::form_urlencoded::Serializer::append_pair` for each pair
/// and `finish`; the text is named `form_urlencoded_serialized`.
#[verifier::external_body]
pub(crate) fn serialize_query_pairs(pairs: &Vec<(String, String)>) -> (r: String)
    ensures
        r@ == form_urlencoded_serialized(pairs_view(pairs@)),
{
    let mut serializer = url::form_urlencoded::Serializer::new(String::new());
    serializer.extend_pairs(pairs.iter().map(|(k, v)| (k.as_str(), v.as_str())));
    serializer.finish()
}

/// The serialization of a URL after `Url::set_path`, or `None` when the
/// URL does not parse.
pub uninterp spec fn url_path_replaced(raw: Seq<char>, path: Seq<char>) -> Option<Seq<char>>;

/// Calls `url::Url::parse`, `set_path` and `to_string`; the outcome is
/// named `url_path_replaced`.
#[verifier::external_body]
pub(crate) fn replace_url_path(raw: &str, path: &str) -> (r: Option<String>)
    ensures
        opt_string_view(r) == url_path_replaced(raw@, path@),
{
    match url::Url::parse(raw) {
        Ok(mut parsed) => {
            parsed.set_path(path);
            Some(parsed.to_string())
        },
        Err(_) => None,
    }
}

} // verus!
