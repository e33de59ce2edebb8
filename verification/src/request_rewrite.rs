//! Request bodies as the upstreams expect them.
//!
//! `scan_inline_data_urls` counts the image URLs of a Gemini request;
//! `rewrite_aiapidev_request_body` turns a Gemini request into the
//! snake_case form that aiapidev accepts, with image URLs as `file_data`.
use vstd::prelude::*;

use crate::config::strings_view;
use crate::image_io::{hostname_matches_domain_patterns, spec_hostname_matches};
use crate::json::{as_str, field_get, field_index, field_insert, field_remove, fields_get, fields_get_str, fields_insert, fields_remove, find_field, keys_view, lemma_model_fields_all, lemma_model_fields_ext, lemma_model_seq_all, lemma_model_seq_ext, member_str, model_fields, model_seq, Json, JsonValue};
use crate::request_scan::{is_http_url, is_http_url_exec, lemma_refs_count, ref_view, refs_view, scan_request_image_urls, spec_scan, url_object_count, MAX_INLINE_DATA_URLS, TOO_MANY_URLS_MESSAGE};
use crate::text::{chars_of, concat, own, starts_with, starts_with_vec, str_eq, vec_is};
use crate::urls::{form_urlencode, form_urlencoded_bytes, parse_url, url_parse_outcome};

verus! {

#[derive(Clone, Debug, PartialEq, Eq)]
pub struct InlineDataScan {
    pub unique_urls: Vec<String>,
    pub total_refs: usize,
}

pub open spec fn urls_of(refs: Seq<(Seq<char>, Seq<char>)>) -> Seq<Seq<char>> {
    refs.map_values(|r: (Seq<char>, Seq<char>)| r.1)
}

pub open spec fn no_duplicates(s: Seq<Seq<char>>) -> bool {
    forall|i: int, j: int| 0 <= i < j < s.len() ==> s[i] != s[j]
}

/// The URLs a request references, each once, and how many references
/// there are; an error when there are more than allowed.
pub fn scan_inline_data_urls(body: &JsonValue) -> (r: Result<InlineDataScan, String>)
    ensures
        match r {
            Err(e) => spec_scan(body@) == Err::<Seq<(Seq<char>, Seq<char>)>, Seq<char>>(e@),
            Ok(scan) => match spec_scan(body@) {
                Ok(refs) => {
                    &&& scan.total_refs == refs.len()
                    &&& no_duplicates(strings_view(scan.unique_urls@))
                    &&& strings_view(scan.unique_urls@).to_set() == urls_of(refs).to_set()
                },
                Err(_) => false,
            },
        },
        // Counted over the body's objects: up to the limit the scan
        // succeeds with one reference per object holding an image URL,
        // beyond it the scan fails.
        r is Ok <==> url_object_count(body@) <= MAX_INLINE_DATA_URLS,
        r matches Ok(scan) ==> scan.total_refs == url_object_count(body@),
        r matches Err(e) ==> e@ == TOO_MANY_URLS_MESSAGE(),
{
    proof {
        lemma_refs_count(body@, Seq::empty());
    }
    let refs = match scan_request_image_urls(body) {
        Err(e) => {
            return Err(e);
        },
        Ok(refs) => refs,
    };
    let ghost rv = refs_view(refs@);
    let mut unique_urls: Vec<String> = Vec::new();
    let mut i: usize = 0;
    while i < refs.len()
        invariant
            0 <= i <= refs.len(),
            rv == refs_view(refs@),
            rv.len() == refs@.len(),
            no_duplicates(strings_view(unique_urls@)),
            forall|s: Seq<char>|
                strings_view(unique_urls@).contains(s) <==> urls_of(rv.subrange(0, i as int)).contains(
                    s,
                ),
        decreases refs.len() - i,
    {
        let url = &refs[i].url;
        let mut found = false;
        let mut k: usize = 0;
        while k < unique_urls.len()
            invariant
                0 <= k <= unique_urls.len(),
                found ==> strings_view(unique_urls@).contains(url@),
                !found ==> forall|m: int| 0 <= m < k ==> unique_urls@[m]@ != url@,
            decreases unique_urls.len() - k,
        {
            if str_eq(unique_urls[k].as_str(), url.as_str()) {
                assert(strings_view(unique_urls@)[k as int] == url@);
                found = true;
            }
            k += 1;
        }
        let ghost before = strings_view(unique_urls@);
        let ghost prev = urls_of(rv.subrange(0, i as int));
        let ghost next = urls_of(rv.subrange(0, i + 1));
        proof {
            assert(rv[i as int] == ref_view(refs@[i as int]));
            assert(next =~= prev.push(url@));
        }
        if !found {
            unique_urls.push(url.clone());
            proof {
                assert(strings_view(unique_urls@) =~= before.push(url@));
                assert forall|a: int, b: int|
                    0 <= a < b < strings_view(unique_urls@).len() implies strings_view(
                    unique_urls@,
                )[a] != strings_view(unique_urls@)[b] by {
                    if b == before.len() {
                        assert(before[a] == unique_urls@[a]@);
                    }
                }
                assert forall|x: Seq<char>|
                    strings_view(unique_urls@).contains(x) <==> next.contains(x) by {
                    if before.contains(x) {
                        let j = choose|j: int| 0 <= j < before.len() && before[j] == x;
                        assert(strings_view(unique_urls@)[j] == x);
                    }
                    if prev.contains(x) {
                        let j = choose|j: int| 0 <= j < prev.len() && prev[j] == x;
                        assert(next[j] == x);
                    }
                    if x == url@ {
                        assert(strings_view(unique_urls@)[before.len() as int] == x);
                        assert(next[i as int] == x);
                    }
                    if next.contains(x) {
                        let j = choose|j: int| 0 <= j < next.len() && next[j] == x;
                        if j < i {
                            assert(prev[j] == x);
                        }
                    }
                    if strings_view(unique_urls@).contains(x) {
                        let j = choose|j: int|
                            0 <= j < strings_view(unique_urls@).len() && strings_view(
                                unique_urls@,
                            )[j] == x;
                        if j < before.len() {
                            assert(before[j] == x);
                        }
                    }
                }
            }
        } else {
            proof {
                assert forall|x: Seq<char>|
                    strings_view(unique_urls@).contains(x) <==> next.contains(x) by {
                    if prev.contains(x) {
                        let j = choose|j: int| 0 <= j < prev.len() && prev[j] == x;
                        assert(next[j] == x);
                    }
                    if next.contains(x) {
                        let j = choose|j: int| 0 <= j < next.len() && next[j] == x;
                        if j < i {
                            assert(prev[j] == x);
                        }
                    }
                }
            }
        }
        i += 1;
    }
    proof {
        assert(rv.subrange(0, refs.len() as int) =~= rv);
        assert(strings_view(unique_urls@).to_set() =~= urls_of(rv).to_set());
    }
    Ok(InlineDataScan { unique_urls, total_refs: refs.len() })
}

// ---------------------------------------------------------------------
// Removing `output` fields
// ---------------------------------------------------------------------
/// Removes `key` from the object that `path` leads to, if there is one.
pub open spec fn remove_at_path(v: Json, path: Seq<Seq<char>>, key: Seq<char>) -> Json
    decreases path.len(),
{
    if path.len() == 0 {
        match v {
            Json::Object(fs) => Json::Object(field_remove(fs, key)),
            _ => v,
        }
    } else {
        match v {
            Json::Object(fs) => match field_index(fs, path[0]) {
                Some(i) => if 0 <= i < fs.len() {
                    Json::Object(
                        fs.update(
                            i,
                            (fs[i].0, remove_at_path(fs[i].1, path.drop_first(), key)),
                        ),
                    )
                } else {
                    v
                },
                None => v,
            },
            _ => v,
        }
    }
}

/// The request without its `output` fields: at the top level and in the
/// image configuration (both spellings).
pub open spec fn strip_output(v: Json) -> Json {
    let top = remove_at_path(v, Seq::empty(), "output"@);
    let camel = remove_at_path(top, seq!["generationConfig"@, "imageConfig"@], "output"@);
    remove_at_path(camel, seq!["generation_config"@, "image_config"@], "output"@)
}

#[verifier::rlimit(100)]
fn remove_member_at(v: JsonValue, path: &[&str], from: usize, key: &str) -> (r: JsonValue)
    requires
        from <= path.len(),
    ensures
        r@ == remove_at_path(
            v@,
            keys_view(path@).subrange(from as int, path@.len() as int),
            key@,
        ),
    decreases path.len() - from,
{
    let ghost rest = keys_view(path@).subrange(from as int, path@.len() as int);
    if from == path.len() {
        match v {
            JsonValue::Object(fs) => {
                let mut fs = fs;
                let _ = fields_remove(&mut fs, key);
                JsonValue::Object(fs)
            },
            other => other,
        }
    } else {
        proof {
            assert(rest[0] == path@[from as int]@);
            assert(rest.drop_first() =~= keys_view(path@).subrange(
                from + 1,
                path@.len() as int,
            ));
        }
        match v {
            JsonValue::Object(fs) => {
                let mut fs = fs;
                match find_field(&fs, path[from]) {
                    Some(i) => {
                        proof {
                            lemma_model_fields_all(fs@);
                        }
                        let ghost before = fs@;
                        let (k, child) = fs.remove(i);
                        let nc = remove_member_at(child, path, from + 1, key);
                        let ghost kv = k@;
                        let ghost ncv = nc@;
                        fs.insert(i, (k, nc));
                        proof {
                            assert(fs@ =~= before.update(i as int, fs@[i as int]));
                            lemma_model_fields_ext(
                                fs@,
                                model_fields(before).update(i as int, (kv, ncv)),
                            );
                        }
                        JsonValue::Object(fs)
                    },
                    None => JsonValue::Object(fs),
                }
            },
            other => other,
        }
    }
}

/// Drops `output` from the request and from its image configuration.
pub fn strip_output_fields(body: JsonValue) -> (r: JsonValue)
    ensures
        r@ == strip_output(body@),
{
    let none: [&str; 0] = [];
    let camel: [&str; 2] = ["generationConfig", "imageConfig"];
    let snake: [&str; 2] = ["generation_config", "image_config"];
    proof {
        assert(keys_view(none@).subrange(0, 0) =~= Seq::<Seq<char>>::empty());
        assert(keys_view(camel@).subrange(0, 2) =~= seq!["generationConfig"@, "imageConfig"@]);
        assert(keys_view(snake@).subrange(0, 2) =~= seq!["generation_config"@, "image_config"@]);
    }
    let top = remove_member_at(body, &none, 0, "output");
    let b = remove_member_at(top, &camel, 0, "output");
    remove_member_at(b, &snake, 0, "output")
}

// ---------------------------------------------------------------------
// The aiapidev form
// ---------------------------------------------------------------------
/// Where a value stands relative to the request's `contents` member. The
/// JSON pointer of a value starts with `/contents/` exactly when it is
/// `Inside` (tokens are escaped, so they hold no `/`).
#[derive(Clone, Copy, Debug, PartialEq, Eq, Structural)]
pub enum PathContext {
    /// The request itself (pointer "").
    Root,
    /// The top-level `contents` member (pointer `/contents`).
    Contents,
    /// Anything below `contents`.
    Inside,
    /// Anything else.
    Elsewhere,
}

/// The context of a member named `token` (after renaming).
pub open spec fn member_context(st: PathContext, token: Seq<char>) -> PathContext {
    match st {
        PathContext::Root => if token == "contents"@ {
            PathContext::Contents
        } else {
            PathContext::Elsewhere
        },
        PathContext::Contents => PathContext::Inside,
        PathContext::Inside => PathContext::Inside,
        PathContext::Elsewhere => PathContext::Elsewhere,
    }
}

/// The context of an array element (its token is a number, never
/// `contents`).
pub open spec fn item_context(st: PathContext) -> PathContext {
    match st {
        PathContext::Root => PathContext::Elsewhere,
        PathContext::Contents => PathContext::Inside,
        PathContext::Inside => PathContext::Inside,
        PathContext::Elsewhere => PathContext::Elsewhere,
    }
}

/// The snake_case names aiapidev uses.
pub open spec fn rw_key(k: Seq<char>) -> Seq<char> {
    if k == "generationConfig"@ {
        "generation_config"@
    } else if k == "imageConfig"@ {
        "image_config"@
    } else if k == "responseModalities"@ {
        "response_modalities"@
    } else if k == "aspectRatio"@ {
        "aspect_ratio"@
    } else if k == "imageSize"@ {
        "image_size"@
    } else {
        k
    }
}

/// An image URL, sent through the external proxy when its host is one of
/// the proxied domains: without query and fragment, form-urlencoded after
/// the prefix.
pub open spec fn wrap_file_uri(raw: Seq<char>, prefix: Seq<char>, domains: Seq<Seq<char>>) -> Seq<
    char,
> {
    if prefix.len() == 0 || domains.len() == 0 || starts_with(raw, prefix) {
        raw
    } else {
        match url_parse_outcome(raw) {
            Err(_) => raw,
            Ok(p) => {
                let host = match p.1 {
                    Some(h) => h,
                    None => Seq::empty(),
                };
                if !spec_hostname_matches(host, domains) {
                    raw
                } else {
                    prefix + form_urlencoded_bytes(p.3)
                }
            },
        }
    }
}

pub open spec fn first_of(a: Option<Json>, b: Option<Json>) -> Option<Json> {
    match a {
        Some(x) => Some(x),
        None => b,
    }
}

/// An `inlineData` (or `inline_data`) member with string data becomes the
/// single member `file_data` (for an URL) or `inline_data`.
pub open spec fn inline_payload(
    fs: Seq<(Seq<char>, Json)>,
    prefix: Seq<char>,
    domains: Seq<Seq<char>>,
) -> Option<(Seq<char>, Json)> {
    match first_of(field_get(fs, "inlineData"@), field_get(fs, "inline_data"@)) {
        Some(Json::Object(inl)) => match member_str(inl, "data"@) {
            Some(d) => {
                let mime = spec_payload_mime(inl);
                if is_http_url(d) {
                    Some(
                        (
                            "file_data"@,
                            Json::Object(
                                seq![
                                    ("file_uri"@, Json::Str(wrap_file_uri(d, prefix, domains))),
                                    ("mime_type"@, Json::Str(mime)),
                                ],
                            ),
                        ),
                    )
                } else {
                    Some(
                        (
                            "inline_data"@,
                            Json::Object(
                                seq![("data"@, Json::Str(d)), ("mime_type"@, Json::Str(mime))],
                            ),
                        ),
                    )
                }
            },
            None => None,
        },
        _ => None,
    }
}

/// The aiapidev form of a value.
pub open spec fn rw_value(v: Json, st: PathContext, prefix: Seq<char>, domains: Seq<Seq<char>>) -> Json
    decreases v,
{
    match v {
        Json::Object(fs) => match inline_payload(fs, prefix, domains) {
            Some((k, p)) => Json::Object(seq![(k, p)]),
            None => Json::Object(rw_members(fs, st, prefix, domains, rw_base(fs, st, prefix, domains))),
        },
        Json::Array(items) => Json::Array(rw_items(items, st, prefix, domains)),
        _ => v,
    }
}

/// Below `contents`, `role` and then `parts` come first.
#[verifier::rlimit(100)]
pub open spec fn rw_base(
    fs: Seq<(Seq<char>, Json)>,
    st: PathContext,
    prefix: Seq<char>,
    domains: Seq<Seq<char>>,
) -> Seq<(Seq<char>, Json)>
    decreases fs,
{
    if st == PathContext::Inside {
        let with_role = match field_index(fs, "role"@) {
            Some(i) => if 0 <= i < fs.len() {
                field_insert(
                    Seq::empty(),
                    "role"@,
                    rw_value(fs[i].1, PathContext::Inside, prefix, domains),
                )
            } else {
                Seq::empty()
            },
            None => Seq::empty(),
        };
        match field_index(fs, "parts"@) {
            Some(i) => if 0 <= i < fs.len() {
                field_insert(
                    with_role,
                    "parts"@,
                    rw_value(fs[i].1, PathContext::Inside, prefix, domains),
                )
            } else {
                with_role
            },
            None => with_role,
        }
    } else {
        Seq::empty()
    }
}

/// The members after the first `fs.len()` are added to `acc`, renamed, in
/// order (below `contents`, `role` and `parts` are skipped).
pub open spec fn rw_members(
    fs: Seq<(Seq<char>, Json)>,
    st: PathContext,
    prefix: Seq<char>,
    domains: Seq<Seq<char>>,
    acc: Seq<(Seq<char>, Json)>,
) -> Seq<(Seq<char>, Json)>
    decreases fs,
{
    if fs.len() == 0 {
        acc
    } else {
        let prev = rw_members(fs.subrange(0, fs.len() - 1), st, prefix, domains, acc);
        let k = fs[fs.len() - 1].0;
        if st == PathContext::Inside && (k == "role"@ || k == "parts"@) {
            prev
        } else {
            field_insert(
                prev,
                rw_key(k),
                rw_value(fs[fs.len() - 1].1, member_context(st, rw_key(k)), prefix, domains),
            )
        }
    }
}

pub open spec fn rw_items(
    items: Seq<Json>,
    st: PathContext,
    prefix: Seq<char>,
    domains: Seq<Seq<char>>,
) -> Seq<Json>
    decreases items,
{
    if items.len() == 0 {
        Seq::empty()
    } else {
        rw_items(items.subrange(0, items.len() - 1), st, prefix, domains).push(
            rw_value(items[items.len() - 1], item_context(st), prefix, domains),
        )
    }
}

fn rewrite_aiapidev_key(key: &str) -> (r: String)
    ensures
        r@ == rw_key(key@),
{
    let k = chars_of(key);
    if vec_is(&k, "generationConfig") {
        own("generation_config")
    } else if vec_is(&k, "imageConfig") {
        own("image_config")
    } else if vec_is(&k, "responseModalities") {
        own("response_modalities")
    } else if vec_is(&k, "aspectRatio") {
        own("aspect_ratio")
    } else if vec_is(&k, "imageSize") {
        own("image_size")
    } else {
        own(key)
    }
}

fn member_context_exec(st: PathContext, token: &str) -> (r: PathContext)
    ensures
        r == member_context(st, token@),
{
    match st {
        PathContext::Root => {
            let t = chars_of(token);
            if vec_is(&t, "contents") {
                PathContext::Contents
            } else {
                PathContext::Elsewhere
            }
        },
        PathContext::Contents => PathContext::Inside,
        PathContext::Inside => PathContext::Inside,
        PathContext::Elsewhere => PathContext::Elsewhere,
    }
}

fn item_context_exec(st: PathContext) -> (r: PathContext)
    ensures
        r == item_context(st),
{
    match st {
        PathContext::Root => PathContext::Elsewhere,
        PathContext::Contents => PathContext::Inside,
        PathContext::Inside => PathContext::Inside,
        PathContext::Elsewhere => PathContext::Elsewhere,
    }
}

/// The URL aiapidev fetches for an image, as `wrap_file_uri` describes.
fn maybe_wrap_aiapidev_file_uri(raw_url: &str, external_proxy_prefix: &str, external_proxy_domains: &[String]) -> (r: String)
    ensures
        r@ == wrap_file_uri(raw_url@, external_proxy_prefix@, strings_view(external_proxy_domains@)),
{
    let rv = chars_of(raw_url);
    let pv = chars_of(external_proxy_prefix);
    if pv.len() == 0 || external_proxy_domains.len() == 0 || starts_with_vec(&rv, &pv) {
        return own(raw_url);
    }
    match parse_url(raw_url) {
        Err(_) => own(raw_url),
        Ok(parsed) => {
            let host = match &parsed.host {
                Some(h) => h.clone(),
                None => String::new(),
            };
            if !hostname_matches_domain_patterns(host.as_str(), external_proxy_domains) {
                return own(raw_url);
            }
            let encoded = form_urlencode(parsed.without_query.as_str());
            concat(external_proxy_prefix, encoded.as_str())
        },
    }
}

fn get_either<'a>(fields: &'a Vec<(String, JsonValue)>, first: &str, second: &str) -> (r: Option<
    &'a JsonValue,
>)
    ensures
        match r {
            Some(x) => first_of(
                field_get(model_fields(fields@), first@),
                field_get(model_fields(fields@), second@),
            ) == Some(x@),
            None => first_of(
                field_get(model_fields(fields@), first@),
                field_get(model_fields(fields@), second@),
            ) is None,
        },
{
    match fields_get(fields, first) {
        Some(x) => Some(x),
        None => fields_get(fields, second),
    }
}

fn two_members(k1: &str, v1: JsonValue, k2: &str, v2: JsonValue) -> (r: JsonValue)
    ensures
        r@ == Json::Object(seq![(k1@, v1@), (k2@, v2@)]),
{
    let mut fs: Vec<(String, JsonValue)> = Vec::new();
    fs.push((own(k1), v1));
    fs.push((own(k2), v2));
    proof {
        lemma_model_fields_ext(fs@, seq![(k1@, v1@), (k2@, v2@)]);
    }
    JsonValue::Object(fs)
}

pub open spec fn spec_payload_mime(inl: Seq<(Seq<char>, Json)>) -> Seq<char> {
    match as_str(first_of(field_get(inl, "mimeType"@), field_get(inl, "mime_type"@))) {
        Some(m) => m,
        None => "image/png"@,
    }
}

fn payload_mime(inline: &Vec<(String, JsonValue)>) -> (r: String)
    ensures
        r@ == spec_payload_mime(model_fields(inline@)),
{
    match get_either(inline, "mimeType", "mime_type") {
        Some(JsonValue::Str(m)) => m.clone(),
        _ => own("image/png"),
    }
}

#[verifier::rlimit(100)]
fn rewrite_inline_data_payload(
    fields: &Vec<(String, JsonValue)>,
    external_proxy_prefix: &str,
    external_proxy_domains: &[String],
) -> (r: Option<(String, JsonValue)>)
    ensures
        match r {
            Some((k, p)) => inline_payload(
                model_fields(fields@),
                external_proxy_prefix@,
                strings_view(external_proxy_domains@),
            ) == Some((k@, p@)),
            None => inline_payload(
                model_fields(fields@),
                external_proxy_prefix@,
                strings_view(external_proxy_domains@),
            ) is None,
        },
{
    let inline = match get_either(fields, "inlineData", "inline_data") {
        Some(JsonValue::Object(inl)) => inl,
        _ => {
            return None;
        },
    };
    let data = match fields_get_str(inline, "data") {
        Some(d) => d,
        None => {
            return None;
        },
    };
    let mime = payload_mime(inline);
    if is_http_url_exec(data.as_str()) {
        let file_uri = maybe_wrap_aiapidev_file_uri(
            data.as_str(),
            external_proxy_prefix,
            external_proxy_domains,
        );
        let payload = two_members(
            "file_uri",
            JsonValue::Str(file_uri),
            "mime_type",
            JsonValue::Str(mime),
        );
        Some((own("file_data"), payload))
    } else {
        let payload = two_members(
            "data",
            JsonValue::Str(data.clone()),
            "mime_type",
            JsonValue::Str(mime),
        );
        Some((own("inline_data"), payload))
    }
}

/// The `role` and `parts` members that come first below `contents`.
#[verifier::rlimit(80)]
fn rewrite_base(
    fields: &Vec<(String, JsonValue)>,
    st: PathContext,
    prefix: &str,
    domains: &[String],
    Ghost(whole): Ghost<JsonValue>,
) -> (r: Vec<(String, JsonValue)>)
    requires
        whole == JsonValue::Object(*fields),
    ensures
        model_fields(r@) == rw_base(model_fields(fields@), st, prefix@, strings_view(domains@)),
    decreases whole, 0nat,
{
    let ghost mf = model_fields(fields@);
    proof {
        lemma_model_fields_all(fields@);
    }
    let mut out: Vec<(String, JsonValue)> = Vec::new();
    proof {
        assert(model_fields(out@) =~= Seq::empty());
    }
    if st != PathContext::Inside {
        return out;
    }
    match find_field(fields, "role") {
        Some(i) => {
            proof {
                assert(decreases_to!(whole => whole->Object_0));
                assert(decreases_to!(*fields => fields@));
                assert(decreases_to!(fields@ => fields@[i as int]));
                assert(decreases_to!(fields@[i as int] => fields@[i as int].1));
                assert(decreases_to!(whole => fields@[i as int].1));
            }
            let role = rewrite_value(&fields[i].1, PathContext::Inside, prefix, domains);
            fields_insert(&mut out, own("role"), role);
        },
        None => {},
    }
    match find_field(fields, "parts") {
        Some(i) => {
            proof {
                assert(decreases_to!(whole => whole->Object_0));
                assert(decreases_to!(*fields => fields@));
                assert(decreases_to!(fields@ => fields@[i as int]));
                assert(decreases_to!(fields@[i as int] => fields@[i as int].1));
                assert(decreases_to!(whole => fields@[i as int].1));
            }
            let parts = rewrite_value(&fields[i].1, PathContext::Inside, prefix, domains);
            fields_insert(&mut out, own("parts"), parts);
        },
        None => {},
    }
    out
}

fn is_role_or_parts(key: &str) -> (r: bool)
    ensures
        r == (key@ == "role"@ || key@ == "parts"@),
{
    let k = chars_of(key);
    vec_is(&k, "role") || vec_is(&k, "parts")
}

/// The aiapidev form of a value in context `st`.
#[verifier::loop_isolation(false)]
#[verifier::rlimit(60)]
fn rewrite_value(v: &JsonValue, st: PathContext, prefix: &str, domains: &[String]) -> (r: JsonValue)
    ensures
        r@ == rw_value(v@, st, prefix@, strings_view(domains@)),
    decreases *v, 1nat,
{
    let ghost dv = strings_view(domains@);
    match v {
        JsonValue::Object(fields) => {
            match rewrite_inline_data_payload(fields, prefix, domains) {
                Some((k, p)) => {
                    let mut fs: Vec<(String, JsonValue)> = Vec::new();
                    let ghost kp = (k@, p@);
                    fs.push((k, p));
                    proof {
                        lemma_model_fields_ext(fs@, seq![kp]);
                    }
                    return JsonValue::Object(fs);
                },
                None => {},
            }
            let ghost mf = model_fields(fields@);
            proof {
                lemma_model_fields_all(fields@);
            }
            let mut out = rewrite_base(fields, st, prefix, domains, Ghost(*v));
            let ghost base = model_fields(out@);
            let inside = st == PathContext::Inside;
            let mut i: usize = 0;
            proof {
                assert(mf.subrange(0, 0) =~= Seq::<(Seq<char>, Json)>::empty());
            }
            while i < fields.len()
                invariant
                    0 <= i <= fields.len(),
                    model_fields(out@) == rw_members(mf.subrange(0, i as int), st, prefix@, dv, base),
                decreases fields.len() - i,
            {
                proof {
                    assert(decreases_to!(*v => fields@[i as int].1));
                    let sub = mf.subrange(0, i + 1);
                    assert(sub.subrange(0, sub.len() - 1) =~= mf.subrange(0, i as int));
                    assert(sub[sub.len() - 1] == mf[i as int]);
                }
                let key = &fields[i].0;
                if !(inside && is_role_or_parts(key.as_str())) {
                    let rk = rewrite_aiapidev_key(key.as_str());
                    let cst = member_context_exec(st, rk.as_str());
                    let child = rewrite_value(&fields[i].1, cst, prefix, domains);
                    fields_insert(&mut out, rk, child);
                }
                i += 1;
            }
            proof {
                assert(mf.subrange(0, fields@.len() as int) =~= mf);
            }
            JsonValue::Object(out)
        },
        JsonValue::Array(items) => {
            let ghost ms = model_seq(items@);
            proof {
                lemma_model_seq_all(items@);
            }
            let ist = item_context_exec(st);
            let mut out: Vec<JsonValue> = Vec::new();
            let mut i: usize = 0;
            proof {
                assert(ms.subrange(0, 0) =~= Seq::<Json>::empty());
                lemma_model_seq_ext(out@, Seq::empty());
            }
            while i < items.len()
                invariant
                    0 <= i <= items.len(),
                    out@.len() == i,
                    model_seq(out@) == rw_items(ms.subrange(0, i as int), st, prefix@, dv),
                decreases items.len() - i,
            {
                proof {
                    assert(decreases_to!(*v => items@[i as int]));
                    let sub = ms.subrange(0, i + 1);
                    assert(sub.subrange(0, sub.len() - 1) =~= ms.subrange(0, i as int));
                    assert(sub[sub.len() - 1] == ms[i as int]);
                    lemma_model_seq_all(out@);
                }
                let child = rewrite_value(&items[i], ist, prefix, domains);
                let ghost before = out@;
                out.push(child);
                proof {
                    lemma_model_seq_all(before);
                    lemma_model_seq_ext(
                        out@,
                        rw_items(ms.subrange(0, i + 1), st, prefix@, dv),
                    );
                }
                i += 1;
            }
            proof {
                assert(ms.subrange(0, items@.len() as int) =~= ms);
            }
            JsonValue::Array(out)
        },
        _ => v.deep_clone(),
    }
}

/// The aiapidev form of a Gemini request: `output` fields dropped, camelCase
/// configuration names in snake_case, `role` before `parts` in each content,
/// and images as `file_data` (URLs, proxied for the listed domains) or
/// `inline_data`.
pub fn rewrite_aiapidev_request_body(
    body: JsonValue,
    external_proxy_prefix: &str,
    external_proxy_domains: &[String],
) -> (r: JsonValue)
    ensures
        r@ == rw_value(
            strip_output(body@),
            PathContext::Root,
            external_proxy_prefix@,
            strings_view(external_proxy_domains@),
        ),
{
    let stripped = strip_output_fields(body);
    rewrite_value(&stripped, PathContext::Root, external_proxy_prefix, external_proxy_domains)
}

} // verus!
