//! Gemini answers that link an image in Markdown instead of carrying it:
//! the link is found, and the first candidate's parts are replaced by the
//! image as inline data.
use vstd::prelude::*;

use crate::codec::{base64_standard, base64_url_nopad_of_text};
use crate::image_io::{guess_image_mime_type_from_url, spec_guess_mime};
use crate::json::{
    field_get, field_index, find_field, lemma_model_fields_all, lemma_model_fields_ext,
    lemma_model_seq_all, lemma_model_seq_ext, model, model_fields, model_seq, Json, JsonValue,
};
use crate::response_rewrite::{
    contains_inline_data, extract_first_markdown_image_url_from_parts, first_markdown_url,
    has_inline_data, spec_wrap_proxy_url_encoded, wrap_proxy_url_encoded,
};
use crate::text::{own, trim, trim_end_char};

verus! {

// ---------------------------------------------------------------------
// Markdown image answers
// ---------------------------------------------------------------------
/// `pointer` step by `"0"`: member `"0"` of an object, first element of an
/// array.
pub open spec fn first_of_value(v: Option<Json>) -> Option<Json> {
    match v {
        Some(Json::Object(fs)) => field_get(fs, "0"@),
        Some(Json::Array(items)) => if items.len() > 0 {
            Some(items[0])
        } else {
            None
        },
        _ => None,
    }
}

/// `body.pointer("/candidates/0/content/parts")`.
pub open spec fn first_candidate_parts(body: Json) -> Option<Json> {
    crate::json::opt_get(
        crate::json::opt_get(first_of_value(crate::json::get(body, "candidates"@)), "content"@),
        "parts"@,
    )
}

/// The image URL a Markdown answer links to, when the response carries no
/// inline data: the first Markdown link among the first candidate's parts.
pub open spec fn spec_markdown_target(body: Json) -> Option<Seq<char>> {
    if has_inline_data(body) {
        None
    } else {
        match crate::json::as_array(first_candidate_parts(body)) {
            Some(parts) => first_markdown_url(parts),
            None => None,
        }
    }
}

fn first_value<'a>(v: &'a JsonValue) -> (r: Option<&'a JsonValue>)
    ensures
        match r {
            Some(x) => first_of_value(Some(v@)) == Some(x@),
            None => first_of_value(Some(v@)) is None,
        },
{
    match v {
        JsonValue::Object(fields) => crate::json::fields_get(fields, "0"),
        JsonValue::Array(items) => {
            if items.len() > 0 {
                proof {
                    lemma_model_seq_all(items@);
                }
                Some(&items[0])
            } else {
                None
            }
        },
        _ => None,
    }
}

fn first_candidate_parts_exec(body: &JsonValue) -> (r: Option<&JsonValue>)
    ensures
        match r {
            Some(x) => first_candidate_parts(body@) == Some(x@),
            None => first_candidate_parts(body@) is None,
        },
{
    let cands = match body.get("candidates") {
        Some(c) => c,
        None => {
            return None;
        },
    };
    let first = match first_value(cands) {
        Some(f) => f,
        None => {
            return None;
        },
    };
    let content = match first.get("content") {
        Some(c) => c,
        None => {
            return None;
        },
    };
    content.get("parts")
}

/// The URL of the image that a Markdown answer links to, if the answer
/// should be turned into inline data.
pub fn markdown_image_target(body: &JsonValue) -> (r: Option<String>)
    ensures
        match r {
            Some(u) => spec_markdown_target(body@) == Some(u@),
            None => spec_markdown_target(body@) is None,
        },
{
    if contains_inline_data(body) {
        return None;
    }
    match first_candidate_parts_exec(body) {
        Some(JsonValue::Array(parts)) => {
            proof {
                lemma_model_seq_all(parts@);
            }
            extract_first_markdown_image_url_from_parts(parts.as_slice())
        },
        _ => None,
    }
}

/// The `inlineData` of a Markdown image in URL mode: the image URL, sent
/// through the proxy's own image route when configured.
pub open spec fn spec_markdown_url_inline_data(
    image_url: Seq<char>,
    proxy_special_upstream_urls: bool,
    public_base_url: Seq<char>,
) -> Json {
    let data = if proxy_special_upstream_urls && trim(public_base_url).len() > 0 {
        spec_wrap_proxy_url_encoded(public_base_url, image_url)
    } else {
        image_url
    };
    Json::Object(seq![("mimeType"@, Json::Str(spec_guess_mime(image_url))), ("data"@, Json::Str(data))])
}

/// In URL mode the Markdown image's inline data carries the image URL:
/// with `PROXY_SPECIAL_UPSTREAM_URLS` on and a public base URL set, as the
/// proxy's own image route (the base URL trimmed, without trailing `/`,
/// then `/proxy/image?u=` and the URL-safe unpadded base64 of the image
/// URL); with the flag off, as the image URL itself.
pub proof fn law_markdown_url_data_follows_the_proxy_flag(
    image_url: Seq<char>,
    public_base_url: Seq<char>,
)
    ensures
        trim(public_base_url).len() > 0 ==> spec_markdown_url_inline_data(
            image_url,
            true,
            public_base_url,
        ) == Json::Object(
            seq![
                ("mimeType"@, Json::Str(spec_guess_mime(image_url))),
                (
                    "data"@,
                    Json::Str(
                        trim_end_char(trim(public_base_url), '/') + "/proxy/image?u="@
                            + base64_url_nopad_of_text(image_url),
                    ),
                ),
            ],
        ),
        spec_markdown_url_inline_data(image_url, false, public_base_url) == Json::Object(
            seq![
                ("mimeType"@, Json::Str(spec_guess_mime(image_url))),
                ("data"@, Json::Str(image_url)),
            ],
        ),
{
}

fn two_string_members(k1: &str, v1: String, k2: &str, v2: String) -> (r: JsonValue)
    ensures
        r@ == Json::Object(seq![(k1@, Json::Str(v1@)), (k2@, Json::Str(v2@))]),
{
    let mut fs: Vec<(String, JsonValue)> = Vec::new();
    fs.push((own(k1), JsonValue::Str(v1)));
    fs.push((own(k2), JsonValue::Str(v2)));
    proof {
        lemma_model_fields_ext(fs@, seq![(k1@, Json::Str(v1@)), (k2@, Json::Str(v2@))]);
    }
    JsonValue::Object(fs)
}

pub fn markdown_url_inline_data(
    image_url: &str,
    proxy_special_upstream_urls: bool,
    public_base_url: &str,
) -> (r: JsonValue)
    ensures
        r@ == spec_markdown_url_inline_data(image_url@, proxy_special_upstream_urls, public_base_url@),
{
    let trimmed = crate::text::trim_str(public_base_url);
    let data = if proxy_special_upstream_urls && !trimmed.as_str().is_empty() {
        wrap_proxy_url_encoded(public_base_url, image_url)
    } else {
        own(image_url)
    };
    two_string_members("mimeType", guess_image_mime_type_from_url(image_url), "data", data)
}

/// The `inlineData` of a fetched Markdown image in base64 mode.
pub fn markdown_base64_inline_data(mime_type: &str, bytes: &[u8]) -> (r: JsonValue)
    ensures
        r@ == Json::Object(
            seq![("mimeType"@, Json::Str(mime_type@)), ("data"@, Json::Str(base64_standard(bytes@)))],
        ),
{
    let data = crate::codec::base64_encode(bytes);
    two_string_members("mimeType", own(mime_type), "data", data)
}

/// The first candidate's parts replaced by the one part
/// `{"inlineData": inline_data}`, when they exist.
pub open spec fn spec_with_first_parts(body: Json, inline_data: Json) -> Json {
    let new_parts = Json::Array(seq![Json::Object(seq![("inlineData"@, inline_data)])]);
    match body {
        Json::Object(fs) => match field_index(fs, "candidates"@) {
            Some(i) => if 0 <= i < fs.len() {
                match with_first_candidate(fs[i].1, new_parts) {
                    Some(c) => Json::Object(fs.update(i, (fs[i].0, c))),
                    None => body,
                }
            } else {
                body
            },
            None => body,
        },
        _ => body,
    }
}

/// `content.parts` of a candidate set to `new_parts`, when it exists.
#[verifier::opaque]
pub open spec fn with_parts(c: Json, new_parts: Json) -> Option<Json> {
    match c {
        Json::Object(cfs) => match field_index(cfs, "content"@) {
            Some(j) => if 0 <= j < cfs.len() {
                match cfs[j].1 {
                    Json::Object(contfs) => match field_index(contfs, "parts"@) {
                        Some(k) => if 0 <= k < contfs.len() {
                            Some(
                                Json::Object(
                                    cfs.update(
                                        j,
                                        (
                                            cfs[j].0,
                                            Json::Object(contfs.update(k, (contfs[k].0, new_parts))),
                                        ),
                                    ),
                                ),
                            )
                        } else {
                            None
                        },
                        None => None,
                    },
                    _ => None,
                }
            } else {
                None
            },
            None => None,
        },
        _ => None,
    }
}

/// The candidates with the first one's parts set, when they exist.
#[verifier::opaque]
pub open spec fn with_first_candidate(cands: Json, new_parts: Json) -> Option<Json> {
    match cands {
        Json::Object(fs) => match field_index(fs, "0"@) {
            Some(i) => if 0 <= i < fs.len() {
                match with_parts(fs[i].1, new_parts) {
                    Some(c) => Some(Json::Object(fs.update(i, (fs[i].0, c)))),
                    None => None,
                }
            } else {
                None
            },
            None => None,
        },
        Json::Array(items) => if items.len() > 0 {
            match with_parts(items[0], new_parts) {
                Some(c) => Some(Json::Array(items.update(0, c))),
                None => None,
            }
        } else {
            None
        },
        _ => None,
    }
}

/// A candidate with `content.parts` set, when those exist.
#[verifier::rlimit(100)]
#[verifier::spinoff_prover]
fn set_parts_of_candidate(c: &JsonValue, new_parts: &JsonValue) -> (r: Option<JsonValue>)
    ensures
        match r {
            Some(x) => with_parts(c@, new_parts@) == Some(x@),
            None => with_parts(c@, new_parts@) is None,
        },
{
    reveal(with_parts);
    match c {
        JsonValue::Object(cfs) => {
            proof {
                lemma_model_fields_all(cfs@);
            }
            let j = match find_field(cfs, "content") {
                Some(j) => j,
                None => {
                    return None;
                },
            };
            match &cfs[j].1 {
                JsonValue::Object(contfs) => {
                    proof {
                        lemma_model_fields_all(contfs@);
                    }
                    let k = match find_field(contfs, "parts") {
                        Some(k) => k,
                        None => {
                            return None;
                        },
                    };
                    let mut new_cont = crate::json::clone_fields(contfs);
                    let ghost before_c = new_cont@;
                    let ghost mc = model_fields(new_cont@);
                    proof {
                        lemma_model_fields_all(new_cont@);
                        assert(mc[k as int].0 == contfs@[k as int].0@);
                    }
                    let ck = contfs[k].0.clone();
                    new_cont.set(k, (ck, new_parts.deep_clone()));
                    proof {
                        lemma_model_fields_ext(
                            new_cont@,
                            model_fields(contfs@).update(
                                k as int,
                                (model_fields(contfs@)[k as int].0, new_parts@),
                            ),
                        );
                    }
                    let mut new_c = crate::json::clone_fields(cfs);
                    proof {
                        lemma_model_fields_all(new_c@);
                    }
                    let cj = cfs[j].0.clone();
                    let ghost ncv = model_fields(new_cont@);
                    new_c.set(j, (cj, JsonValue::Object(new_cont)));
                    proof {
                        lemma_model_fields_ext(
                            new_c@,
                            model_fields(cfs@).update(
                                j as int,
                                (model_fields(cfs@)[j as int].0, Json::Object(ncv)),
                            ),
                        );
                    }
                    Some(JsonValue::Object(new_c))
                },
                _ => None,
            }
        },
        _ => None,
    }
}

#[verifier::rlimit(100)]
#[verifier::spinoff_prover]
fn set_first_candidate(cands: &JsonValue, new_parts: &JsonValue) -> (r: Option<JsonValue>)
    ensures
        match r {
            Some(x) => with_first_candidate(cands@, new_parts@) == Some(x@),
            None => with_first_candidate(cands@, new_parts@) is None,
        },
{
    reveal(with_first_candidate);
    match cands {
        JsonValue::Object(fs) => {
            proof {
                lemma_model_fields_all(fs@);
            }
            let i = match find_field(fs, "0") {
                Some(i) => i,
                None => {
                    return None;
                },
            };
            match set_parts_of_candidate(&fs[i].1, new_parts) {
                Some(c) => {
                    let mut nf = crate::json::clone_fields(fs);
                    proof {
                        lemma_model_fields_all(nf@);
                        lemma_model_fields_all(fs@);
                    }
                    let key = fs[i].0.clone();
                    let ghost cv = c@;
                    nf.set(i, (key, c));
                    proof {
                        lemma_model_fields_all(fs@);
                        lemma_model_fields_ext(
                            nf@,
                            model_fields(fs@).update(i as int, (model_fields(fs@)[i as int].0, cv)),
                        );
                    }
                    Some(JsonValue::Object(nf))
                },
                None => None,
            }
        },
        JsonValue::Array(items) => {
            if items.len() == 0 {
                return None;
            }
            proof {
                lemma_model_seq_all(items@);
            }
            match set_parts_of_candidate(&items[0], new_parts) {
                Some(c) => {
                    let mut ni: Vec<JsonValue> = Vec::new();
                    let ghost cv = c@;
                    ni.push(c);
                    let mut k: usize = 1;
                    while k < items.len()
                        invariant
                            1 <= k <= items.len(),
                            ni@.len() == k,
                            model(ni@[0]) == cv,
                            forall|m: int| 1 <= m < k ==> model(#[trigger] ni@[m]) == model(items@[m]),
                        decreases items.len() - k,
                    {
                        ni.push(items[k].deep_clone());
                        k += 1;
                    }
                    proof {
                        lemma_model_seq_ext(ni@, model_seq(items@).update(0, cv));
                    }
                    Some(JsonValue::Array(ni))
                },
                None => None,
            }
        },
        _ => None,
    }
}

/// Replaces the first candidate's parts with the single part
/// `{"inlineData": inline_data}`, when those parts exist.
#[verifier::rlimit(100)]
#[verifier::spinoff_prover]
pub fn replace_first_candidate_parts(body: JsonValue, inline_data: JsonValue) -> (r: JsonValue)
    ensures
        r@ == spec_with_first_parts(body@, inline_data@),
{
    let mut part_fields: Vec<(String, JsonValue)> = Vec::new();
    let ghost idv = inline_data@;
    part_fields.push((own("inlineData"), inline_data));
    proof {
        lemma_model_fields_ext(part_fields@, seq![("inlineData"@, idv)]);
    }
    let mut parts: Vec<JsonValue> = Vec::new();
    let part = JsonValue::Object(part_fields);
    let ghost pv = part@;
    parts.push(part);
    proof {
        lemma_model_seq_ext(parts@, seq![pv]);
    }
    let new_parts = JsonValue::Array(parts);
    match body {
        JsonValue::Object(fs) => {
            let mut fs = fs;
            proof {
                lemma_model_fields_all(fs@);
            }
            let i = match find_field(&fs, "candidates") {
                Some(i) => i,
                None => {
                    return JsonValue::Object(fs);
                },
            };
            match set_first_candidate(&fs[i].1, &new_parts) {
                Some(c) => {
                    let key = fs[i].0.clone();
                    let ghost before = fs@;
                    let ghost cv = c@;
                    fs.set(i, (key, c));
                    proof {
                        lemma_model_fields_ext(
                            fs@,
                            model_fields(before).update(i as int, (model_fields(before)[i as int].0, cv)),
                        );
                    }
                    JsonValue::Object(fs)
                },
                None => JsonValue::Object(fs),
            }
        },
        other => other,
    }
}

} // verus!
