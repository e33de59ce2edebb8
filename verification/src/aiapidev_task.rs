//! The answer of an asynchronous image task, turned into a Gemini style
//! response: its first image, as a URL (optionally through the external
//! image proxy) or as base64 data fetched by the caller.
use vstd::prelude::*;

use crate::config::{spec_resolved_prefix, Config};
use crate::image_io::{guess_image_mime_type_from_url, spec_guess_mime};
use crate::json::{
    as_array, as_str, get, get_path, keys_view, lemma_model_fields_ext, lemma_model_seq_all,
    lemma_model_seq_ext, model, model_fields, model_seq, Json, JsonValue,
};
use crate::text::{own, trim, trim_str};
use crate::upload::{spec_wrap_external, wrap_external_proxy_url};

verus! {

/// The `url` of a result item, when it is a non-blank string.
pub open spec fn item_url(item: Json) -> Option<Seq<char>> {
    match as_str(get(item, "url"@)) {
        Some(u) => if trim(u).len() > 0 {
            Some(u)
        } else {
            None
        },
        None => None,
    }
}

pub open spec fn first_item_url(items: Seq<Json>) -> Option<Seq<char>>
    decreases items.len(),
{
    if items.len() == 0 {
        None
    } else {
        match item_url(items[0]) {
            Some(u) => Some(u),
            None => first_item_url(items.drop_first()),
        }
    }
}

/// The image of a finished task: the first `result.items[].url`.
pub open spec fn spec_task_image_url(task: Json) -> Option<Seq<char>> {
    match as_array(get_path(task, seq!["result"@, "items"@])) {
        Some(items) => first_item_url(items),
        None => None,
    }
}

/// The first image URL of a finished task's result.
pub fn task_image_url(task: &JsonValue) -> (r: Option<String>)
    ensures
        crate::urls::opt_string_view(r) == spec_task_image_url(task@),
{
    let keys: [&str; 2] = ["result", "items"];
    proof {
        assert(keys_view(keys@) =~= seq!["result"@, "items"@]);
    }
    let items = match task.get_path(&keys) {
        Some(JsonValue::Array(items)) => items,
        _ => {
            return None;
        },
    };
    let ghost ms = model_seq(items@);
    proof {
        lemma_model_seq_all(items@);
        assert(ms.subrange(0, ms.len() as int) =~= ms);
        assert(spec_task_image_url(task@) == first_item_url(ms));
    }
    let mut i: usize = 0;
    while i < items.len()
        invariant
            0 <= i <= items.len(),
            ms == model_seq(items@),
            ms.len() == items@.len(),
            forall|k: int| 0 <= k < items@.len() ==> #[trigger] ms[k] == model(items@[k]),
            first_item_url(ms) == first_item_url(ms.subrange(i as int, ms.len() as int)),
            spec_task_image_url(task@) == first_item_url(ms),
        decreases items.len() - i,
    {
        proof {
            let rest = ms.subrange(i as int, ms.len() as int);
            assert(rest.drop_first() =~= ms.subrange(i + 1, ms.len() as int));
            assert(rest[0] == ms[i as int]);
        }
        match items[i].get_str("url") {
            Some(u) => {
                let t = trim_str(u.as_str());
                if !t.as_str().is_empty() {
                    return Some(u.clone());
                }
            },
            None => {},
        }
        i += 1;
    }
    None
}

/// The data a task image gets in URL mode: wrapped by the external image
/// proxy when special upstream URLs are proxied and a prefix is set.
pub open spec fn spec_task_url_data(proxy_special: bool, prefix: Seq<char>, url: Seq<char>) -> Seq<char> {
    if proxy_special && trim(prefix).len() > 0 {
        spec_wrap_external(prefix, url)
    } else {
        url
    }
}

/// The `inlineData` of a task image in URL mode: its guessed type and its
/// (possibly proxied) URL.
pub fn task_url_inline_data(config: &Config, image_url: &str) -> (r: JsonValue)
    ensures
        r@ == Json::Object(
            seq![
                ("mimeType"@, Json::Str(spec_guess_mime(image_url@))),
                (
                    "data"@,
                    Json::Str(
                        spec_task_url_data(
                            config.proxy_special_upstream_urls,
                            spec_resolved_prefix(
                                config.external_image_proxy_prefix@,
                                config.public_base_url@,
                            ),
                            image_url@,
                        ),
                    ),
                ),
            ],
        ),
{
    let prefix = config.resolved_external_image_proxy_prefix();
    let t = trim_str(prefix.as_str());
    let data = if config.proxy_special_upstream_urls && !t.as_str().is_empty() {
        wrap_external_proxy_url(prefix.as_str(), image_url)
    } else {
        own(image_url)
    };
    let mime = guess_image_mime_type_from_url(image_url);
    let mut fs: Vec<(String, JsonValue)> = Vec::new();
    fs.push((own("mimeType"), JsonValue::Str(mime)));
    fs.push((own("data"), JsonValue::Str(data)));
    proof {
        lemma_model_fields_ext(
            fs@,
            seq![("mimeType"@, Json::Str(fs@[0].1@->Str_0)), ("data"@, Json::Str(fs@[1].1@->Str_0))],
        );
    }
    JsonValue::Object(fs)
}

pub open spec fn num(t: Seq<char>) -> Json {
    Json::Number(t)
}

/// The Gemini response for a task image: one candidate whose model content
/// is the one inline image, and fixed usage figures.
pub open spec fn spec_task_response(inline_data: Json) -> Json {
    Json::Object(
        seq![
            (
                "candidates"@,
                Json::Array(
                    seq![
                        Json::Object(
                            seq![
                                (
                                    "content"@,
                                    Json::Object(
                                        seq![
                                            ("role"@, Json::Str("model"@)),
                                            (
                                                "parts"@,
                                                Json::Array(
                                                    seq![
                                                        Json::Object(
                                                            seq![("inlineData"@, inline_data)],
                                                        ),
                                                    ],
                                                ),
                                            ),
                                        ],
                                    ),
                                ),
                            ],
                        ),
                    ],
                ),
            ),
            (
                "usageMetadata"@,
                Json::Object(
                    seq![
                        ("candidatesTokenCount"@, num("1024"@)),
                        ("promptTokenCount"@, num("1024"@)),
                        ("totalTokenCount"@, num("2048"@)),
                    ],
                ),
            ),
        ],
    )
}

fn obj1(k: &str, v: JsonValue) -> (r: JsonValue)
    ensures
        r@ == Json::Object(seq![(k@, v@)]),
{
    let ghost m = v@;
    let mut fs: Vec<(String, JsonValue)> = Vec::new();
    fs.push((own(k), v));
    proof {
        lemma_model_fields_ext(fs@, seq![(k@, m)]);
    }
    JsonValue::Object(fs)
}

fn arr1(v: JsonValue) -> (r: JsonValue)
    ensures
        r@ == Json::Array(seq![v@]),
{
    let ghost m = v@;
    let mut items: Vec<JsonValue> = Vec::new();
    items.push(v);
    proof {
        lemma_model_seq_ext(items@, seq![m]);
    }
    JsonValue::Array(items)
}

/// The Gemini style response for a task image.
pub fn build_task_response(inline_data: JsonValue) -> (r: JsonValue)
    ensures
        r@ == spec_task_response(inline_data@),
{
    let ghost inl = inline_data@;
    let part = obj1("inlineData", inline_data);
    let parts = arr1(part);
    let ghost pm = parts@;
    let mut content: Vec<(String, JsonValue)> = Vec::new();
    content.push((own("role"), JsonValue::Str(own("model"))));
    content.push((own("parts"), parts));
    proof {
        lemma_model_fields_ext(content@, seq![("role"@, Json::Str("model"@)), ("parts"@, pm)]);
    }
    let candidate = obj1("content", JsonValue::Object(content));
    let candidates = arr1(candidate);
    let ghost cm = candidates@;
    let mut usage: Vec<(String, JsonValue)> = Vec::new();
    usage.push((own("candidatesTokenCount"), JsonValue::Number(own("1024"))));
    usage.push((own("promptTokenCount"), JsonValue::Number(own("1024"))));
    usage.push((own("totalTokenCount"), JsonValue::Number(own("2048"))));
    proof {
        lemma_model_fields_ext(
            usage@,
            seq![
                ("candidatesTokenCount"@, num("1024"@)),
                ("promptTokenCount"@, num("1024"@)),
                ("totalTokenCount"@, num("2048"@)),
            ],
        );
    }
    let ghost um = model_fields(usage@);
    let mut fs: Vec<(String, JsonValue)> = Vec::new();
    fs.push((own("candidates"), candidates));
    fs.push((own("usageMetadata"), JsonValue::Object(usage)));
    proof {
        lemma_model_fields_ext(fs@, seq![("candidates"@, cm), ("usageMetadata"@, Json::Object(um))]);
    }
    JsonValue::Object(fs)
}

/// A finished task's answer in URL mode: the Gemini style response built
/// around its first image URL, or `None` when the task names no image.
pub fn normalize_aiapidev_task_response_url(task: &JsonValue, config: &Config) -> (r: Option<JsonValue>)
    ensures
        match spec_task_image_url(task@) {
            None => r is None,
            Some(u) => r is Some && r->0@ == spec_task_response(
                Json::Object(
                    seq![
                        ("mimeType"@, Json::Str(spec_guess_mime(u))),
                        (
                            "data"@,
                            Json::Str(
                                spec_task_url_data(
                                    config.proxy_special_upstream_urls,
                                    spec_resolved_prefix(
                                        config.external_image_proxy_prefix@,
                                        config.public_base_url@,
                                    ),
                                    u,
                                ),
                            ),
                        ),
                    ],
                ),
            ),
        },
{
    match task_image_url(task) {
        Some(u) => {
            let inline = task_url_inline_data(config, u.as_str());
            Some(build_task_response(inline))
        },
        None => None,
    }
}

} // verus!
