//! The grsai image API: request parameters taken from Gemini or OpenAI
//! style requests, the request body, and the reading of its answers
//! (JSON or server-sent events, business error codes).
use vstd::prelude::*;

use crate::json::{as_array, as_i64, as_object, as_str, field_get, fields_get, fields_get_str, first_of_opt, get, get_path, keys_view, lemma_model_fields_ext, lemma_model_seq_all, lemma_model_seq_ext, member_str, model, model_fields, model_seq, Json, JsonValue};
use crate::codec::{utf8_lossy, utf8_lossy_text};
use crate::json_text::{json_parse_outcome, parse_json};
use crate::text::{chars_of, concat, contains, contains_vec, lower, lower_vec, own, split, split_vec, starts_with, string_of, trim, trim_start, trim_str, trim_vec, vec_is};
use crate::urls::{form_urlencoded_pairs, pairs_view, parse_query_pairs};

verus! {

pub const IMAGE_GENERATION_PATH: &'static str = "/v1/draw/nano-banana";

pub const DEFAULT_MODEL: &'static str = "nano-banana-fast";

pub const MSG_PARSE_UPSTREAM_FAILED: &'static str = "解析上游服务响应失败，请稍后再试";

#[derive(Clone, Copy, Debug, PartialEq, Eq, Structural)]
pub enum GrsaiSource {
    Gemini,
    OpenAi,
}

#[derive(Clone, Debug, PartialEq, Eq)]
pub struct GrsaiImageParams {
    pub model: String,
    pub prompt: String,
    pub urls: Vec<String>,
    pub aspect_ratio: String,
    pub image_size: String,
    pub output: String,
}

#[derive(Debug, PartialEq)]
pub struct GrsaiResult {
    pub status: String,
    pub image_urls: Vec<String>,
    pub failure_reason: Option<String>,
    pub error_detail: Option<String>,
    pub start_time: Option<i64>,
    pub end_time: Option<i64>,
    pub raw_data: JsonValue,
}

#[derive(Debug, PartialEq)]
pub struct GrsaiError {
    pub http_status: u16,
    pub message: String,
    pub upstream_code: Option<i64>,
    pub failure_reason: Option<String>,
    pub body_text: String,
    pub raw_json: Option<JsonValue>,
}

pub open spec fn opt_view(o: Option<String>) -> Option<Seq<char>> {
    crate::urls::opt_string_view(o)
}

pub open spec fn strs(v: Seq<String>) -> Seq<Seq<char>> {
    crate::config::strings_view(v)
}

// ---------------------------------------------------------------------
// Models
// ---------------------------------------------------------------------
pub open spec fn spec_normalize_model(raw: Seq<char>, source: GrsaiSource) -> Seq<char> {
    let m = trim(raw);
    if m.len() == 0 {
        DEFAULT_MODEL@
    } else {
        match source {
            GrsaiSource::Gemini => if m == "gemini-3-pro-image-preview"@ {
                "nano-banana-pro"@
            } else if m == "gemini-2.5-flash-image"@ {
                DEFAULT_MODEL@
            } else if m == "gemini-3.1-flash-image-preview"@ {
                "nano-banana-2"@
            } else {
                m
            },
            GrsaiSource::OpenAi => m,
        }
    }
}

/// The grsai model for a requested model: the default when empty, Gemini
/// names mapped to their grsai counterparts.
pub fn normalize_model(raw_model: &str, source: GrsaiSource) -> (r: String)
    ensures
        r@ == spec_normalize_model(raw_model@, source),
{
    let v = chars_of(raw_model);
    let m = trim_vec(&v);
    if m.len() == 0 {
        return own(DEFAULT_MODEL);
    }
    match source {
        GrsaiSource::Gemini => {
            if vec_is(&m, "gemini-3-pro-image-preview") {
                own("nano-banana-pro")
            } else if vec_is(&m, "gemini-2.5-flash-image") {
                own(DEFAULT_MODEL)
            } else if vec_is(&m, "gemini-3.1-flash-image-preview") {
                own("nano-banana-2")
            } else {
                string_of(&m)
            }
        },
        GrsaiSource::OpenAi => string_of(&m),
    }
}

// ---------------------------------------------------------------------
// Picking strings
// ---------------------------------------------------------------------
/// The first of `keys` whose member is a string, and that string.
#[verifier::opaque]
pub open spec fn first_str_member(fs: Seq<(Seq<char>, Json)>, keys: Seq<Seq<char>>) -> Option<
    Seq<char>,
>
    decreases keys.len(),
{
    if keys.len() == 0 {
        None
    } else {
        match member_str(fs, keys[0]) {
            Some(s) => Some(s),
            None => first_str_member(fs, keys.drop_first()),
        }
    }
}

pub open spec fn nonblank(s: Option<Seq<char>>) -> Option<Seq<char>> {
    match s {
        Some(x) => if trim(x).len() > 0 {
            Some(trim(x))
        } else {
            None
        },
        None => None,
    }
}

/// `object_string`: the first string among `keys`, trimmed, when not
/// blank.
#[verifier::opaque]
pub open spec fn spec_object_string(fs: Seq<(Seq<char>, Json)>, keys: Seq<Seq<char>>) -> Option<
    Seq<char>,
> {
    nonblank(first_str_member(fs, keys))
}

proof fn lemma_first_str_member_at(fs: Seq<(Seq<char>, Json)>, keys: Seq<Seq<char>>, k: int, s: Seq<char>)
    requires
        0 <= k < keys.len(),
        member_str(fs, keys[k]) == Some(s),
        forall|j: int| 0 <= j < k ==> member_str(fs, #[trigger] keys[j]) is None,
    ensures
        first_str_member(fs, keys) == Some(s),
    decreases k,
{
    reveal(first_str_member);
    if k > 0 {
        let rest = keys.drop_first();
        assert(member_str(fs, keys[0]) is None);
        assert(rest[k - 1] == keys[k]);
        assert forall|j: int| 0 <= j < k - 1 implies member_str(fs, #[trigger] rest[j]) is None by {
            assert(rest[j] == keys[j + 1]);
        }
        lemma_first_str_member_at(fs, rest, k - 1, s);
    }
}

/// A setting read from a request object: the first of its keys that holds
/// a string decides; that string, trimmed, is the setting when it is not
/// blank, and the default is used when it is blank or no key holds a
/// string.
pub proof fn law_object_string_reads_the_first_string_key(
    fs: Seq<(Seq<char>, Json)>,
    keys: Seq<Seq<char>>,
    k: int,
    s: Seq<char>,
    default: Seq<char>,
)
    requires
        0 <= k < keys.len(),
        member_str(fs, keys[k]) == Some(s),
        forall|j: int| 0 <= j < k ==> member_str(fs, #[trigger] keys[j]) is None,
    ensures
        trim(s).len() > 0 ==> or_default(spec_object_string(fs, keys), default) == trim(s),
        trim(s).len() == 0 ==> or_default(spec_object_string(fs, keys), default) == default,
{
    reveal(spec_object_string);
    lemma_first_str_member_at(fs, keys, k, s);
}

fn first_str_member_exec<'a>(fields: &'a Vec<(String, JsonValue)>, keys: &[&str]) -> (r: Option<
    &'a String,
>)
    ensures
        match r {
            Some(s) => first_str_member(model_fields(fields@), keys_view(keys@)) == Some(s@),
            None => first_str_member(model_fields(fields@), keys_view(keys@)) is None,
        },
{
    let ghost kv = keys_view(keys@);
    let mut i: usize = 0;
    proof {
        reveal(first_str_member);
        assert(kv.subrange(0, kv.len() as int) =~= kv);
    }
    while i < keys.len()
        invariant
            0 <= i <= keys.len(),
            kv == keys_view(keys@),
            kv.len() == keys@.len(),
            first_str_member(model_fields(fields@), kv) == first_str_member(
                model_fields(fields@),
                kv.subrange(i as int, kv.len() as int),
            ),
        decreases keys.len() - i,
    {
        proof {
            reveal(first_str_member);
            let rest = kv.subrange(i as int, kv.len() as int);
            assert(rest.drop_first() =~= kv.subrange(i + 1, kv.len() as int));
            assert(rest[0] == keys@[i as int]@);
        }
        match fields_get_str(fields, keys[i]) {
            Some(s) => {
                return Some(s);
            },
            None => {},
        }
        i += 1;
    }
    None
}

fn nonblank_exec(s: Option<&String>) -> (r: Option<String>)
    ensures
        opt_view(r) == nonblank(
            match s {
                Some(x) => Some(x@),
                None => None,
            },
        ),
{
    match s {
        Some(x) => {
            let t = trim_str(x.as_str());
            if t.as_str().is_empty() {
                None
            } else {
                Some(t)
            }
        },
        None => None,
    }
}

pub fn object_string(fields: &Vec<(String, JsonValue)>, keys: &[&str]) -> (r: Option<String>)
    ensures
        opt_view(r) == spec_object_string(model_fields(fields@), keys_view(keys@)),
{
    reveal(spec_object_string);
    nonblank_exec(first_str_member_exec(fields, keys))
}

pub open spec fn or_default(s: Option<Seq<char>>, d: Seq<char>) -> Seq<char> {
    match s {
        Some(x) => x,
        None => d,
    }
}

pub fn pick_object_string(fields: &Vec<(String, JsonValue)>, keys: &[&str], default: &str) -> (r:
    String)
    ensures
        r@ == or_default(spec_object_string(model_fields(fields@), keys_view(keys@)), default@),
{
    match object_string(fields, keys) {
        Some(s) => s,
        None => own(default),
    }
}

/// The trimmed value of the first query pair named `key` whose value is
/// not blank.
pub open spec fn query_value(pairs: Seq<(Seq<char>, Seq<char>)>, key: Seq<char>) -> Option<
    Seq<char>,
>
    decreases pairs.len(),
{
    if pairs.len() == 0 {
        None
    } else if pairs[0].0 == key && trim(pairs[0].1).len() > 0 {
        Some(trim(pairs[0].1))
    } else {
        query_value(pairs.drop_first(), key)
    }
}

/// The query value for the first of `keys` that has one.
pub open spec fn query_pick(pairs: Seq<(Seq<char>, Seq<char>)>, keys: Seq<Seq<char>>) -> Option<
    Seq<char>,
>
    decreases keys.len(),
{
    if keys.len() == 0 {
        None
    } else {
        match query_value(pairs, keys[0]) {
            Some(v) => Some(v),
            None => query_pick(pairs, keys.drop_first()),
        }
    }
}

/// The first of `keys` whose value in `v` is a string.
pub open spec fn value_str_pick(v: Json, keys: Seq<Seq<char>>) -> Option<Seq<char>>
    decreases keys.len(),
{
    if keys.len() == 0 {
        None
    } else {
        match as_str(get(v, keys[0])) {
            Some(s) => Some(s),
            None => value_str_pick(v, keys.drop_first()),
        }
    }
}

/// A setting from the query first, then from a configuration object, then
/// the default.
#[verifier::opaque]
pub open spec fn spec_pick_override(
    pairs: Seq<(Seq<char>, Seq<char>)>,
    query_keys: Seq<Seq<char>>,
    object: Option<Json>,
    object_keys: Seq<Seq<char>>,
    default: Seq<char>,
) -> Seq<char> {
    match query_pick(pairs, query_keys) {
        Some(v) => v,
        None => or_default(
            nonblank(
                match object {
                    Some(o) => value_str_pick(o, object_keys),
                    None => None,
                },
            ),
            default,
        ),
    }
}

proof fn lemma_query_value_none(pairs: Seq<(Seq<char>, Seq<char>)>, key: Seq<char>)
    requires
        forall|i: int| 0 <= i < pairs.len() && #[trigger] pairs[i].0 == key ==> trim(pairs[i].1).len() == 0,
    ensures
        query_value(pairs, key) is None,
    decreases pairs.len(),
{
    if pairs.len() > 0 {
        let rest = pairs.drop_first();
        assert forall|i: int| 0 <= i < rest.len() && #[trigger] rest[i].0 == key implies trim(
            rest[i].1,
        ).len() == 0 by {
            assert(rest[i] == pairs[i + 1]);
        }
        lemma_query_value_none(rest, key);
    }
}

proof fn lemma_query_pick_none(pairs: Seq<(Seq<char>, Seq<char>)>, keys: Seq<Seq<char>>)
    requires
        forall|i: int, j: int|
            0 <= i < pairs.len() && 0 <= j < keys.len() && #[trigger] pairs[i].0 == #[trigger] keys[j]
                ==> trim(pairs[i].1).len() == 0,
    ensures
        query_pick(pairs, keys) is None,
    decreases keys.len(),
{
    if keys.len() > 0 {
        assert forall|i: int| 0 <= i < pairs.len() && #[trigger] pairs[i].0 == keys[0] implies trim(
            pairs[i].1,
        ).len() == 0 by {
            assert(keys[0] == keys[0]);
        }
        lemma_query_value_none(pairs, keys[0]);
        let rest = keys.drop_first();
        assert forall|i: int, j: int|
            0 <= i < pairs.len() && 0 <= j < rest.len() && #[trigger] pairs[i].0 == #[trigger] rest[j]
                implies trim(pairs[i].1).len() == 0 by {
            assert(rest[j] == keys[j + 1]);
        }
        lemma_query_pick_none(pairs, rest);
    }
}

proof fn lemma_value_str_pick_first(v: Json, keys: Seq<Seq<char>>, k: int, s: Seq<char>)
    requires
        0 <= k < keys.len(),
        as_str(get(v, keys[k])) == Some(s),
        forall|j: int| 0 <= j < k ==> as_str(get(v, #[trigger] keys[j])) is None,
    ensures
        value_str_pick(v, keys) == Some(s),
    decreases k,
{
    if k > 0 {
        let rest = keys.drop_first();
        assert(as_str(get(v, keys[0])) is None);
        assert(rest[k - 1] == keys[k]);
        assert forall|j: int| 0 <= j < k - 1 implies as_str(get(v, #[trigger] rest[j])) is None by {
            assert(rest[j] == keys[j + 1]);
        }
        lemma_value_str_pick_first(v, rest, k - 1, s);
    }
}

/// Where the query names none of the setting's keys with a non-blank
/// value, the setting comes from the configuration object: the first of
/// its keys holding a string decides, and a non-blank string there is the
/// setting, trimmed, whatever the default.
pub proof fn law_pick_override_reads_the_object(
    pairs: Seq<(Seq<char>, Seq<char>)>,
    query_keys: Seq<Seq<char>>,
    object: Json,
    object_keys: Seq<Seq<char>>,
    default: Seq<char>,
    k: int,
    s: Seq<char>,
)
    requires
        forall|i: int, j: int|
            0 <= i < pairs.len() && 0 <= j < query_keys.len() && #[trigger] pairs[i].0
                == #[trigger] query_keys[j] ==> trim(pairs[i].1).len() == 0,
        0 <= k < object_keys.len(),
        get(object, object_keys[k]) == Some(Json::Str(s)),
        forall|j: int| 0 <= j < k ==> as_str(get(object, #[trigger] object_keys[j])) is None,
        trim(s).len() > 0,
    ensures
        spec_pick_override(pairs, query_keys, Some(object), object_keys, default) == trim(s),
{
    reveal(spec_pick_override);
    lemma_query_pick_none(pairs, query_keys);
    lemma_value_str_pick_first(object, object_keys, k, s);
}

/// A Gemini request without a query takes its aspect ratio and image size
/// from `generationConfig.imageConfig` when it sets them (non-blank
/// strings, trimmed), not from the defaults.
#[verifier::spinoff_prover]
#[verifier::rlimit(50)]
pub proof fn law_gemini_params_read_the_image_config(
    body: Json,
    raw_model: Seq<char>,
    image_cfg: Json,
    aspect_ratio: Seq<char>,
    image_size: Seq<char>,
)
    requires
        spec_gemini_params(body, raw_model, None) is Ok,
        get_path(body, seq!["generationConfig"@, "imageConfig"@]) == Some(image_cfg),
        get(image_cfg, "aspectRatio"@) == Some(Json::Str(aspect_ratio)),
        get(image_cfg, "imageSize"@) == Some(Json::Str(image_size)),
        trim(aspect_ratio).len() > 0,
        trim(image_size).len() > 0,
    ensures
        spec_gemini_params(body, raw_model, None)->Ok_0.3 == trim(aspect_ratio),
        spec_gemini_params(body, raw_model, None)->Ok_0.4 == trim(image_size),
{
    let pairs = query_pairs_of(None);
    assert(image_config(body) == Some(image_cfg));
    let ar = seq!["aspectRatio"@, "aspect_ratio"@];
    let sz = seq!["imageSize"@, "image_size"@];
    law_pick_override_reads_the_object(pairs, ar, image_cfg, ar, "auto"@, 0, aspect_ratio);
    law_pick_override_reads_the_object(pairs, sz, image_cfg, sz, "1K"@, 0, image_size);
}

fn query_value_exec(pairs: &Vec<(String, String)>, key: &str) -> (r: Option<String>)
    ensures
        opt_view(r) == query_value(pairs_view(pairs@), key@),
{
    let ghost pv = pairs_view(pairs@);
    let mut i: usize = 0;
    proof {
        assert(pv.subrange(0, pv.len() as int) =~= pv);
    }
    while i < pairs.len()
        invariant
            0 <= i <= pairs.len(),
            pv == pairs_view(pairs@),
            pv.len() == pairs@.len(),
            query_value(pv, key@) == query_value(pv.subrange(i as int, pv.len() as int), key@),
        decreases pairs.len() - i,
    {
        proof {
            let rest = pv.subrange(i as int, pv.len() as int);
            assert(rest.drop_first() =~= pv.subrange(i + 1, pv.len() as int));
            assert(rest[0] == (pairs@[i as int].0@, pairs@[i as int].1@));
        }
        if crate::text::str_eq(pairs[i].0.as_str(), key) {
            let t = trim_str(pairs[i].1.as_str());
            if !t.as_str().is_empty() {
                return Some(t);
            }
        }
        i += 1;
    }
    None
}

fn query_pick_exec(pairs: &Vec<(String, String)>, keys: &[&str]) -> (r: Option<String>)
    ensures
        opt_view(r) == query_pick(pairs_view(pairs@), keys_view(keys@)),
{
    let ghost kv = keys_view(keys@);
    let mut i: usize = 0;
    proof {
        assert(kv.subrange(0, kv.len() as int) =~= kv);
    }
    while i < keys.len()
        invariant
            0 <= i <= keys.len(),
            kv == keys_view(keys@),
            kv.len() == keys@.len(),
            query_pick(pairs_view(pairs@), kv) == query_pick(
                pairs_view(pairs@),
                kv.subrange(i as int, kv.len() as int),
            ),
        decreases keys.len() - i,
    {
        proof {
            let rest = kv.subrange(i as int, kv.len() as int);
            assert(rest.drop_first() =~= kv.subrange(i + 1, kv.len() as int));
            assert(rest[0] == keys@[i as int]@);
        }
        match query_value_exec(pairs, keys[i]) {
            Some(v) => {
                return Some(v);
            },
            None => {},
        }
        i += 1;
    }
    None
}

fn value_str_pick_exec<'a>(v: &'a JsonValue, keys: &[&str]) -> (r: Option<&'a String>)
    ensures
        match r {
            Some(s) => value_str_pick(v@, keys_view(keys@)) == Some(s@),
            None => value_str_pick(v@, keys_view(keys@)) is None,
        },
{
    let ghost kv = keys_view(keys@);
    let mut i: usize = 0;
    proof {
        assert(kv.subrange(0, kv.len() as int) =~= kv);
    }
    while i < keys.len()
        invariant
            0 <= i <= keys.len(),
            kv == keys_view(keys@),
            kv.len() == keys@.len(),
            value_str_pick(v@, kv) == value_str_pick(v@, kv.subrange(i as int, kv.len() as int)),
        decreases keys.len() - i,
    {
        proof {
            let rest = kv.subrange(i as int, kv.len() as int);
            assert(rest.drop_first() =~= kv.subrange(i + 1, kv.len() as int));
            assert(rest[0] == keys@[i as int]@);
        }
        match v.get_str(keys[i]) {
            Some(s) => {
                return Some(s);
            },
            None => {},
        }
        i += 1;
    }
    None
}

fn pick_string_override(
    query_pairs: &Vec<(String, String)>,
    query_keys: &[&str],
    object: Option<&JsonValue>,
    object_keys: &[&str],
    default: &str,
) -> (r: String)
    ensures
        r@ == spec_pick_override(
            pairs_view(query_pairs@),
            keys_view(query_keys@),
            match object {
                Some(o) => Some(o@),
                None => None,
            },
            keys_view(object_keys@),
            default@,
        ),
{
    reveal(spec_pick_override);
    match query_pick_exec(query_pairs, query_keys) {
        Some(v) => {
            return v;
        },
        None => {},
    }
    let found = match object {
        Some(o) => value_str_pick_exec(o, object_keys),
        None => None,
    };
    match nonblank_exec(found) {
        Some(s) => s,
        None => own(default),
    }
}

// ---------------------------------------------------------------------
// Gemini requests
// ---------------------------------------------------------------------
pub open spec fn is_user_content(c: Json) -> bool {
    as_str(get(c, "role"@)) == Some("user"@)
}

pub open spec fn first_user(cs: Seq<Json>) -> Option<Json>
    decreases cs.len(),
{
    if cs.len() == 0 {
        None
    } else if is_user_content(cs[0]) {
        Some(cs[0])
    } else {
        first_user(cs.drop_first())
    }
}

/// The first content with role `user`, else the first content.
#[verifier::opaque]
pub open spec fn spec_pick_content(fs: Seq<(Seq<char>, Json)>) -> Option<Json> {
    match as_array(field_get(fs, "contents"@)) {
        Some(cs) => match first_user(cs) {
            Some(c) => Some(c),
            None => if cs.len() > 0 {
                Some(cs[0])
            } else {
                None
            },
        },
        None => None,
    }
}

/// The trimmed, non-blank texts of the parts.
#[verifier::opaque]
pub open spec fn part_texts(parts: Seq<Json>) -> Seq<Seq<char>>
    decreases parts.len(),
{
    if parts.len() == 0 {
        Seq::empty()
    } else {
        let prev = part_texts(parts.drop_last());
        match as_str(get(parts.last(), "text"@)) {
            Some(t) => if trim(t).len() > 0 {
                prev.push(trim(t))
            } else {
                prev
            },
            None => prev,
        }
    }
}

/// Texts joined by a line break.
#[verifier::opaque]
pub open spec fn join_lines(s: Seq<Seq<char>>) -> Seq<char>
    decreases s.len(),
{
    if s.len() == 0 {
        Seq::empty()
    } else if s.len() == 1 {
        s[0]
    } else {
        join_lines(s.drop_last()) + "\n"@ + s.last()
    }
}

/// The image reference of a part: `inlineData.data` (or
/// `inline_data.data`), trimmed, when not blank.
pub open spec fn part_url(p: Json) -> Option<Seq<char>> {
    nonblank(
        as_str(
            first_of_opt(
                get_path(p, seq!["inlineData"@, "data"@]),
                get_path(p, seq!["inline_data"@, "data"@]),
            ),
        ),
    )
}

#[verifier::opaque]
pub open spec fn part_urls(parts: Seq<Json>) -> Seq<Seq<char>>
    decreases parts.len(),
{
    if parts.len() == 0 {
        Seq::empty()
    } else {
        let prev = part_urls(parts.drop_last());
        match part_url(parts.last()) {
            Some(u) => prev.push(u),
            None => prev,
        }
    }
}

pub open spec fn image_config(body: Json) -> Option<Json> {
    first_of_opt(
        get_path(body, seq!["generationConfig"@, "imageConfig"@]),
        get_path(body, seq!["generation_config"@, "image_config"@]),
    )
}

pub open spec fn query_pairs_of(query: Option<Seq<char>>) -> Seq<(Seq<char>, Seq<char>)> {
    match query {
        Some(q) => form_urlencoded_pairs(q),
        None => Seq::empty(),
    }
}

pub open spec fn params_view(p: GrsaiImageParams) -> (
    Seq<char>,
    Seq<char>,
    Seq<Seq<char>>,
    Seq<char>,
    Seq<char>,
    Seq<char>,
) {
    (p.model@, p.prompt@, strs(p.urls@), p.aspect_ratio@, p.image_size@, p.output@)
}

pub open spec fn MSG_NOT_OBJECT() -> Seq<char> {
    "请求内容必须是 JSON 对象"@
}

pub open spec fn MSG_NO_CONTENTS() -> Seq<char> {
    "Gemini 请求缺少 contents 字段或内容为空"@
}

pub open spec fn MSG_NO_PARTS() -> Seq<char> {
    "Gemini 请求缺少 parts 数组"@
}

pub open spec fn MSG_BAD_URLS() -> Seq<char> {
    "图片 URL 字段必须是字符串数组"@
}

/// A request error: 400 with the message and nothing else.
pub open spec fn is_invalid_request(e: GrsaiError, message: Seq<char>) -> bool {
    &&& e.http_status == 400
    &&& e.message@ == message
    &&& e.upstream_code is None
    &&& e.failure_reason is None
    &&& e.body_text@ == Seq::<char>::empty()
    &&& e.raw_json is None
}

/// The parameters of a Gemini request, or the message of the request
/// error.
pub open spec fn spec_gemini_params(body: Json, raw_model: Seq<char>, query: Option<Seq<char>>) -> Result<
    (Seq<char>, Seq<char>, Seq<Seq<char>>, Seq<char>, Seq<char>, Seq<char>),
    Seq<char>,
> {
    match body {
        Json::Object(fs) => match spec_pick_content(fs) {
            None => Err(MSG_NO_CONTENTS()),
            Some(content) => match as_array(get(content, "parts"@)) {
                None => Err(MSG_NO_PARTS()),
                Some(parts) => {
                    let pairs = query_pairs_of(query);
                    let cfg = image_config(body);
                    Ok(
                        (
                            spec_normalize_model(raw_model, GrsaiSource::Gemini),
                            join_lines(part_texts(parts)),
                            part_urls(parts),
                            spec_pick_override(
                                pairs,
                                seq!["aspectRatio"@, "aspect_ratio"@],
                                cfg,
                                seq!["aspectRatio"@, "aspect_ratio"@],
                                "auto"@,
                            ),
                            spec_pick_override(
                                pairs,
                                seq!["imageSize"@, "image_size"@],
                                cfg,
                                seq!["imageSize"@, "image_size"@],
                                "1K"@,
                            ),
                            spec_pick_override(pairs, seq!["output"@], cfg, seq!["output"@], ""@),
                        ),
                    )
                },
            },
        },
        _ => Err(MSG_NOT_OBJECT()),
    }
}

fn invalid_request(message: &str) -> (r: GrsaiError)
    ensures
        is_invalid_request(r, message@),
{
    GrsaiError {
        http_status: 400,
        message: own(message),
        upstream_code: None,
        failure_reason: None,
        body_text: String::new(),
        raw_json: None,
    }
}

#[verifier::rlimit(100)]
#[verifier::spinoff_prover]
fn pick_gemini_content(fields: &Vec<(String, JsonValue)>) -> (r: Option<&JsonValue>)
    ensures
        match r {
            Some(c) => spec_pick_content(model_fields(fields@)) == Some(c@),
            None => spec_pick_content(model_fields(fields@)) is None,
        },
{
    reveal(spec_pick_content);
    let contents = match fields_get(fields, "contents") {
        Some(JsonValue::Array(cs)) => cs,
        _ => {
            return None;
        },
    };
    let ghost ms = model_seq(contents@);
    assert(as_array(field_get(model_fields(fields@), "contents"@)) == Some(ms));
    proof {
        lemma_model_seq_all(contents@);
        assert(ms.subrange(0, ms.len() as int) =~= ms);
    }
    let mut i: usize = 0;
    while i < contents.len()
        invariant
            0 <= i <= contents.len(),
            ms == model_seq(contents@),
            ms.len() == contents@.len(),
            forall|k: int| 0 <= k < contents@.len() ==> #[trigger] ms[k] == model(contents@[k]),
            first_user(ms) == first_user(ms.subrange(i as int, ms.len() as int)),
            as_array(field_get(model_fields(fields@), "contents"@)) == Some(ms),
        decreases contents.len() - i,
    {
        proof {
            let rest = ms.subrange(i as int, ms.len() as int);
            assert(rest.drop_first() =~= ms.subrange(i + 1, ms.len() as int));
            assert(rest[0] == ms[i as int]);
        }
        let is_user = match contents[i].get_str("role") {
            Some(role) => crate::text::str_eq(role.as_str(), "user"),
            None => false,
        };
        if is_user {
            proof {
                reveal(spec_pick_content);
            }
            return Some(&contents[i]);
        }
        i += 1;
    }
    proof {
        assert(ms.subrange(ms.len() as int, ms.len() as int) =~= Seq::<Json>::empty());
    }
    if contents.len() > 0 {
        Some(&contents[0])
    } else {
        None
    }
}

fn part_url_exec(p: &JsonValue) -> (r: Option<String>)
    ensures
        opt_view(r) == part_url(p@),
{
    let camel: [&str; 2] = ["inlineData", "data"];
    let snake: [&str; 2] = ["inline_data", "data"];
    proof {
        assert(keys_view(camel@) =~= seq!["inlineData"@, "data"@]);
        assert(keys_view(snake@) =~= seq!["inline_data"@, "data"@]);
    }
    let found = match p.get_path(&camel) {
        Some(v) => Some(v),
        None => p.get_path(&snake),
    };
    match found {
        Some(v) => nonblank_exec(v.as_str()),
        None => None,
    }
}

#[verifier::rlimit(100)]
#[verifier::spinoff_prover]
fn prompt_and_urls(parts: &Vec<JsonValue>) -> (r: (String, Vec<String>))
    ensures
        r.0@ == join_lines(part_texts(model_seq(parts@))),
        strs(r.1@) == part_urls(model_seq(parts@)),
{
    reveal(part_texts);
    reveal(part_urls);
    let ghost ms = model_seq(parts@);
    proof {
        lemma_model_seq_all(parts@);
        assert(ms.subrange(0, 0) =~= Seq::<Json>::empty());
    }
    let mut texts: Vec<String> = Vec::new();
    let mut urls: Vec<String> = Vec::new();
    let mut i: usize = 0;
    while i < parts.len()
        invariant
            0 <= i <= parts.len(),
            ms == model_seq(parts@),
            ms.len() == parts@.len(),
            forall|k: int| 0 <= k < parts@.len() ==> #[trigger] ms[k] == model(parts@[k]),
            strs(texts@) == part_texts(ms.subrange(0, i as int)),
            strs(urls@) == part_urls(ms.subrange(0, i as int)),
        decreases parts.len() - i,
    {
        proof {
            reveal(part_texts);
            reveal(part_urls);
            let sub = ms.subrange(0, i + 1);
            assert(sub.drop_last() =~= ms.subrange(0, i as int));
            assert(sub.last() == ms[i as int]);
        }
        match parts[i].get_str("text") {
            Some(t) => {
                let tt = trim_str(t.as_str());
                if !tt.as_str().is_empty() {
                    let ghost before = texts@;
                    texts.push(tt);
                    proof {
                        assert(strs(texts@) =~= strs(before).push(texts@[texts@.len() - 1]@));
                    }
                }
            },
            None => {},
        }
        match part_url_exec(&parts[i]) {
            Some(u) => {
                let ghost before = urls@;
                urls.push(u);
                proof {
                    assert(strs(urls@) =~= strs(before).push(urls@[urls@.len() - 1]@));
                }
            },
            None => {},
        }
        i += 1;
    }
    proof {
        assert(ms.subrange(0, parts@.len() as int) =~= ms);
    }
    (join_strings(&texts), urls)
}

/// The strings joined by line breaks.
fn join_strings(v: &Vec<String>) -> (r: String)
    ensures
        r@ == join_lines(strs(v@)),
{
    reveal(join_lines);
    let mut out = String::new();
    let mut i: usize = 0;
    proof {
        assert(strs(v@).subrange(0, 0) =~= Seq::<Seq<char>>::empty());
    }
    while i < v.len()
        invariant
            0 <= i <= v.len(),
            out@ == join_lines(strs(v@).subrange(0, i as int)),
        decreases v.len() - i,
    {
        let ghost sub = strs(v@).subrange(0, i + 1);
        proof {
            reveal(join_lines);
            assert(sub.drop_last() =~= strs(v@).subrange(0, i as int));
            assert(sub.last() == v@[i as int]@);
        }
        if i == 0 {
            out = v[i].clone();
            proof {
                reveal(join_lines);
                assert(sub.len() == 1);
                assert(join_lines(sub) == sub[0]);
            }
        } else {
            let a = concat(out.as_str(), "\n");
            out = concat(a.as_str(), v[i].as_str());
            proof {
                reveal(join_lines);
                assert(join_lines(sub) == join_lines(sub.drop_last()) + "\n"@ + sub.last());
            }
        }
        i += 1;
    }
    proof {
        assert(strs(v@).subrange(0, v.len() as int) =~= strs(v@));
    }
    out
}

/// The grsai parameters of a Gemini `generateContent` request: the user
/// content's texts and image references, and the image settings from the
/// query or the image configuration.
#[verifier::rlimit(100)]
#[verifier::spinoff_prover]
pub fn extract_gemini_params(body: &JsonValue, raw_model: &str, query: Option<&str>) -> (r: Result<
    GrsaiImageParams,
    GrsaiError,
>)
    ensures
        match r {
            Ok(p) => spec_gemini_params(
                body@,
                raw_model@,
                match query {
                    Some(q) => Some(q@),
                    None => None,
                },
            ) == Ok::<_, Seq<char>>(params_view(p)),
            Err(e) => match spec_gemini_params(
                body@,
                raw_model@,
                match query {
                    Some(q) => Some(q@),
                    None => None,
                },
            ) {
                Err(m) => is_invalid_request(e, m),
                Ok(_) => false,
            },
        },
{
    let fields = match body {
        JsonValue::Object(fields) => fields,
        _ => {
            return Err(invalid_request("请求内容必须是 JSON 对象"));
        },
    };
    let content = match pick_gemini_content(fields) {
        Some(c) => c,
        None => {
            return Err(invalid_request("Gemini 请求缺少 contents 字段或内容为空"));
        },
    };
    let parts = match content.get("parts") {
        Some(JsonValue::Array(parts)) => parts,
        _ => {
            return Err(invalid_request("Gemini 请求缺少 parts 数组"));
        },
    };
    let (prompt, urls) = prompt_and_urls(parts);
    let camel: [&str; 2] = ["generationConfig", "imageConfig"];
    let snake: [&str; 2] = ["generation_config", "image_config"];
    proof {
        assert(keys_view(camel@) =~= seq!["generationConfig"@, "imageConfig"@]);
        assert(keys_view(snake@) =~= seq!["generation_config"@, "image_config"@]);
    }
    let cfg = match body.get_path(&camel) {
        Some(v) => Some(v),
        None => body.get_path(&snake),
    };
    let pairs = match query {
        Some(q) => parse_query_pairs(q),
        None => Vec::new(),
    };
    proof {
        if query is None {
            assert(pairs_view(pairs@) =~= Seq::<(Seq<char>, Seq<char>)>::empty());
        } else {
            assert(pairs_view(pairs@) =~= form_urlencoded_pairs(query->0@));
        }
    }
    let ar_keys: [&str; 2] = ["aspectRatio", "aspect_ratio"];
    let size_keys: [&str; 2] = ["imageSize", "image_size"];
    let out_keys: [&str; 1] = ["output"];
    proof {
        assert(keys_view(ar_keys@) =~= seq!["aspectRatio"@, "aspect_ratio"@]);
        assert(keys_view(size_keys@) =~= seq!["imageSize"@, "image_size"@]);
        assert(keys_view(out_keys@) =~= seq!["output"@]);
    }
    let aspect_ratio = pick_string_override(&pairs, &ar_keys, cfg, &ar_keys, "auto");
    let image_size = pick_string_override(&pairs, &size_keys, cfg, &size_keys, "1K");
    let output = pick_string_override(&pairs, &out_keys, cfg, &out_keys, "");
    Ok(
        GrsaiImageParams {
            model: normalize_model(raw_model, GrsaiSource::Gemini),
            prompt,
            urls,
            aspect_ratio,
            image_size,
            output,
        },
    )
}

// ---------------------------------------------------------------------
// OpenAI requests
// ---------------------------------------------------------------------
/// `extract_string_array`: every element a non-blank string (trimmed).
#[verifier::opaque]
pub open spec fn spec_string_array(v: Json) -> Option<Seq<Seq<char>>> {
    match v {
        Json::Array(items) => if forall|i: int|
            0 <= i < items.len() ==> #[trigger] nonblank(as_str(Some(items[i]))) is Some {
            Some(items.map_values(|x: Json| nonblank(as_str(Some(x)))->0))
        } else {
            None
        },
        _ => None,
    }
}

pub open spec fn spec_openai_fields(fs: Seq<(Seq<char>, Json)>) -> Result<
    (Seq<char>, Seq<char>, Seq<Seq<char>>, Seq<char>, Seq<char>, Seq<char>),
    Seq<char>,
> {
    match openai_urls(fs) {
        None => Err(MSG_BAD_URLS()),
        Some(u) => Ok(
            (
                spec_normalize_model(openai_model(fs), GrsaiSource::OpenAi),
                or_default(as_str(field_get(fs, "prompt"@)), Seq::empty()),
                u,
                or_default(spec_object_string(fs, seq!["aspect_ratio"@, "aspectRatio"@]), "auto"@),
                or_default(spec_object_string(fs, seq!["image_size"@, "imageSize"@]), "1K"@),
                or_default(spec_object_string(fs, seq!["output"@]), "url"@),
            ),
        ),
    }
}

pub open spec fn spec_openai_params(body: Json) -> Result<
    (Seq<char>, Seq<char>, Seq<Seq<char>>, Seq<char>, Seq<char>, Seq<char>),
    Seq<char>,
> {
    match body {
        Json::Object(fs) => spec_openai_fields(fs),
        _ => Err(MSG_NOT_OBJECT()),
    }
}

#[verifier::rlimit(100)]
#[verifier::spinoff_prover]
fn extract_string_array(value: &JsonValue) -> (r: Result<Vec<String>, GrsaiError>)
    ensures
        match r {
            Ok(v) => spec_string_array(value@) == Some(strs(v@)),
            Err(e) => spec_string_array(value@) is None && is_invalid_request(e, MSG_BAD_URLS()),
        },
{
    reveal(spec_string_array);
    let items = match value {
        JsonValue::Array(items) => items,
        _ => {
            return Err(invalid_request("图片 URL 字段必须是字符串数组"));
        },
    };
    let ghost ms = model_seq(items@);
    proof {
        lemma_model_seq_all(items@);
    }
    assert(value@ == Json::Array(ms));
    let mut out: Vec<String> = Vec::new();
    let mut i: usize = 0;
    while i < items.len()
        invariant
            0 <= i <= items.len(),
            ms == model_seq(items@),
            ms.len() == items@.len(),
            forall|k: int| 0 <= k < items@.len() ==> #[trigger] ms[k] == model(items@[k]),
            out@.len() == i,
            forall|k: int|
                0 <= k < i ==> nonblank(as_str(Some(ms[k]))) == Some(#[trigger] out@[k]@),
            value@ == Json::Array(ms),
        decreases items.len() - i,
    {
        match nonblank_exec(items[i].as_str()) {
            Some(s) => {
                out.push(s);
            },
            None => {
                proof {
                    assert(nonblank(as_str(Some(ms[i as int]))) is None);
                    assert(!(forall|k: int| 0 <= k < ms.len() ==> #[trigger] nonblank(as_str(Some(ms[k]))) is Some));
                    reveal(spec_string_array);
                    assert(spec_string_array(value@) is None);
                }
                return Err(invalid_request("图片 URL 字段必须是字符串数组"));
            },
        }
        i += 1;
    }
    proof {
        assert forall|k: int| 0 <= k < ms.len() implies #[trigger] nonblank(as_str(Some(ms[k]))) is Some by {
            assert(nonblank(as_str(Some(ms[k]))) == Some(out@[k]@));
        }
        assert(strs(out@) =~= ms.map_values(|x: Json| nonblank(as_str(Some(x)))->0));
    }
    Ok(out)
}

/// The grsai parameters of an OpenAI style image request.
/// The requested model of an OpenAI style request (`model`, else
/// `model_name`, else empty).
#[verifier::opaque]
pub open spec fn openai_model(fs: Seq<(Seq<char>, Json)>) -> Seq<char> {
    or_default(
        match as_str(field_get(fs, "model"@)) {
            Some(m) => Some(m),
            None => as_str(field_get(fs, "model_name"@)),
        },
        Seq::empty(),
    )
}

/// The image references of an OpenAI style request: `urls`, else
/// `images`; `None` when the field is not an array of non-blank strings.
#[verifier::opaque]
pub open spec fn openai_urls(fs: Seq<(Seq<char>, Json)>) -> Option<Seq<Seq<char>>> {
    match first_of_opt(field_get(fs, "urls"@), field_get(fs, "images"@)) {
        Some(v) => spec_string_array(v),
        None => Some(Seq::empty()),
    }
}

fn openai_model_exec(fields: &Vec<(String, JsonValue)>) -> (r: String)
    ensures
        r@ == openai_model(model_fields(fields@)),
{
    reveal(openai_model);
    match fields_get_str(fields, "model") {
        Some(m) => m.clone(),
        None => match fields_get_str(fields, "model_name") {
            Some(m) => m.clone(),
            None => String::new(),
        },
    }
}

fn openai_urls_exec(fields: &Vec<(String, JsonValue)>) -> (r: Result<Vec<String>, GrsaiError>)
    ensures
        match r {
            Ok(u) => openai_urls(model_fields(fields@)) == Some(strs(u@)),
            Err(e) => openai_urls(model_fields(fields@)) is None && is_invalid_request(
                e,
                MSG_BAD_URLS(),
            ),
        },
{
    reveal(openai_urls);
    let urls_field = match fields_get(fields, "urls") {
        Some(v) => Some(v),
        None => fields_get(fields, "images"),
    };
    match urls_field {
        Some(v) => extract_string_array(v),
        None => {
            let u: Vec<String> = Vec::new();
            proof {
                assert(strs(u@) =~= Seq::<Seq<char>>::empty());
            }
            Ok(u)
        },
    }
}

#[verifier::rlimit(100)]
#[verifier::spinoff_prover]
fn openai_params_from_fields(fields: &Vec<(String, JsonValue)>) -> (r: Result<
    GrsaiImageParams,
    GrsaiError,
>)
    ensures
        match r {
            Ok(p) => spec_openai_fields(model_fields(fields@)) == Ok::<_, Seq<char>>(params_view(p)),
            Err(e) => match spec_openai_fields(model_fields(fields@)) {
                Err(m) => is_invalid_request(e, m),
                Ok(_) => false,
            },
        },
{
    let urls = match openai_urls_exec(fields) {
        Ok(u) => u,
        Err(e) => {
            return Err(e);
        },
    };
    let model_raw = openai_model_exec(fields);
    let model = normalize_model(model_raw.as_str(), GrsaiSource::OpenAi);
    let prompt = match fields_get_str(fields, "prompt") {
        Some(p) => p.clone(),
        None => String::new(),
    };
    let ar_keys: [&str; 2] = ["aspect_ratio", "aspectRatio"];
    let size_keys: [&str; 2] = ["image_size", "imageSize"];
    let out_keys: [&str; 1] = ["output"];
    proof {
        assert(keys_view(ar_keys@) =~= seq!["aspect_ratio"@, "aspectRatio"@]);
        assert(keys_view(size_keys@) =~= seq!["image_size"@, "imageSize"@]);
        assert(keys_view(out_keys@) =~= seq!["output"@]);
    }
    let aspect_ratio = pick_object_string(fields, &ar_keys, "auto");
    let image_size = pick_object_string(fields, &size_keys, "1K");
    let output = pick_object_string(fields, &out_keys, "url");
    Ok(GrsaiImageParams { model, prompt, urls, aspect_ratio, image_size, output })
}

/// The grsai parameters of an OpenAI style image request.
pub fn extract_openai_params(body: &JsonValue) -> (r: Result<GrsaiImageParams, GrsaiError>)
    ensures
        match r {
            Ok(p) => spec_openai_params(body@) == Ok::<_, Seq<char>>(params_view(p)),
            Err(e) => match spec_openai_params(body@) {
                Err(m) => is_invalid_request(e, m),
                Ok(_) => false,
            },
        },
{
    match body {
        JsonValue::Object(fields) => openai_params_from_fields(fields),
        _ => Err(invalid_request("请求内容必须是 JSON 对象")),
    }
}

/// The grsai request body for the parameters.
pub open spec fn spec_request_body(p: (Seq<char>, Seq<char>, Seq<Seq<char>>, Seq<char>, Seq<char>, Seq<char>)) -> Json {
    Json::Object(
        seq![
            ("model"@, Json::Str(p.0)),
            ("prompt"@, Json::Str(p.1)),
            ("urls"@, Json::Array(p.2.map_values(|u: Seq<char>| Json::Str(u)))),
            ("aspectRatio"@, Json::Str(p.3)),
            ("imageSize"@, Json::Str(p.4)),
            ("shutProgress"@, Json::Bool(true)),
        ],
    )
}

pub fn build_grsai_request_body(params: &GrsaiImageParams) -> (r: JsonValue)
    ensures
        r@ == spec_request_body(params_view(*params)),
{
    let mut urls: Vec<JsonValue> = Vec::new();
    let mut i: usize = 0;
    while i < params.urls.len()
        invariant
            0 <= i <= params.urls.len(),
            urls@.len() == i,
            forall|k: int| 0 <= k < i ==> model(#[trigger] urls@[k]) == Json::Str(params.urls@[k]@),
        decreases params.urls.len() - i,
    {
        urls.push(JsonValue::Str(params.urls[i].clone()));
        i += 1;
    }
    proof {
        lemma_model_seq_ext(urls@, strs(params.urls@).map_values(|u: Seq<char>| Json::Str(u)));
    }
    let ghost uv = model_seq(urls@);
    let mut fs: Vec<(String, JsonValue)> = Vec::new();
    fs.push((own("model"), JsonValue::Str(params.model.clone())));
    fs.push((own("prompt"), JsonValue::Str(params.prompt.clone())));
    fs.push((own("urls"), JsonValue::Array(urls)));
    fs.push((own("aspectRatio"), JsonValue::Str(params.aspect_ratio.clone())));
    fs.push((own("imageSize"), JsonValue::Str(params.image_size.clone())));
    fs.push((own("shutProgress"), JsonValue::Bool(true)));
    proof {
        lemma_model_fields_ext(
            fs@,
            seq![
                ("model"@, Json::Str(params.model@)),
                ("prompt"@, Json::Str(params.prompt@)),
                ("urls"@, Json::Array(uv)),
                ("aspectRatio"@, Json::Str(params.aspect_ratio@)),
                ("imageSize"@, Json::Str(params.image_size@)),
                ("shutProgress"@, Json::Bool(true)),
            ],
        );
    }
    JsonValue::Object(fs)
}

// ---------------------------------------------------------------------
// Answers
// ---------------------------------------------------------------------
/// The reason phrase `http::StatusCode::canonical_reason` gives for a code.
pub uninterp spec fn status_canonical_reason(code: u16) -> Option<Seq<char>>;

/// Calls `http::StatusCode::from_u16` and `canonical_reason`; the phrase is
/// named `status_canonical_reason`.
#[verifier::external_body]
fn canonical_reason(code: u16) -> (r: Option<String>)
    ensures
        opt_view(r) == status_canonical_reason(code),
{
    axum::http::StatusCode::from_u16(code).ok().and_then(|s| s.canonical_reason()).map(|s| s.to_string())
}

pub open spec fn strip_cr(l: Seq<char>) -> Seq<char> {
    if l.len() > 0 && l.last() == '\r' {
        l.drop_last()
    } else {
        l
    }
}

/// `str::lines`: the pieces between line feeds, a carriage return before a
/// line feed dropped, no empty piece after a final line feed.
pub open spec fn text_lines(s: Seq<char>) -> Seq<Seq<char>> {
    let p = split(s, '\n');
    let n = p.len();
    p.take(n - 1).map_values(|l: Seq<char>| strip_cr(l)) + if p[n - 1].len() > 0 {
        seq![p[n - 1]]
    } else {
        Seq::empty()
    }
}

/// The payload of the last `data:` line that holds one (not blank, not
/// `[DONE]`).
pub open spec fn last_data_line(lines: Seq<Seq<char>>) -> Option<Seq<char>>
    decreases lines.len(),
{
    if lines.len() == 0 {
        None
    } else {
        let l = lines.last();
        if starts_with(l, "data:"@) && trim(l.subrange("data:"@.len() as int, l.len() as int)).len()
            > 0 && trim(l.subrange("data:"@.len() as int, l.len() as int)) != "[DONE]"@ {
            Some(trim(l.subrange("data:"@.len() as int, l.len() as int)))
        } else {
            last_data_line(lines.drop_last())
        }
    }
}

pub open spec fn MSG_EMPTY_BODY() -> Seq<char> {
    "响应体为空"@
}

pub open spec fn MSG_NO_DATA_LINE() -> Seq<char> {
    "未找到可解析的数据段"@
}

/// The JSON text of an answer: the body itself when it starts with `{` or
/// `[`, else the last `data:` line; `Err` holds the parse error's detail.
pub open spec fn spec_payload_text(body_empty: bool, text: Seq<char>) -> Result<Seq<char>, Seq<char>> {
    if body_empty || trim(text).len() == 0 {
        Err(MSG_EMPTY_BODY())
    } else {
        let t = trim_start(text);
        if t.len() > 0 && (t[0] == '{' || t[0] == '[') {
            Ok(t)
        } else {
            match last_data_line(text_lines(text)) {
                Some(l) => Ok(l),
                None => Err(MSG_NO_DATA_LINE()),
            }
        }
    }
}

pub type GrsaiErrorModel = (u16, Seq<char>, Option<i64>, Option<Seq<char>>, Seq<char>, Option<Json>);

pub open spec fn error_view(e: GrsaiError) -> GrsaiErrorModel {
    (
        e.http_status,
        e.message@,
        e.upstream_code,
        opt_view(e.failure_reason),
        e.body_text@,
        match e.raw_json {
            Some(j) => Some(j@),
            None => None,
        },
    )
}

/// A reading error: 502 with the fixed message and the detail.
pub open spec fn parse_error_model(detail: Seq<char>, body_text: Seq<char>, raw: Option<Json>) -> GrsaiErrorModel {
    (502, MSG_PARSE_UPSTREAM_FAILED@ + ": "@ + detail, None, None, body_text, raw)
}

fn parse_error(message: &str, body_text: &str, raw_json: Option<JsonValue>) -> (r: GrsaiError)
    ensures
        error_view(r) == parse_error_model(
            message@,
            body_text@,
            match raw_json {
                Some(j) => Some(j@),
                None => None,
            },
        ),
{
    let a = concat(MSG_PARSE_UPSTREAM_FAILED, ": ");
    GrsaiError {
        http_status: 502,
        message: concat(a.as_str(), message),
        upstream_code: None,
        failure_reason: None,
        body_text: own(body_text),
        raw_json,
    }
}

fn strip_cr_exec(l: &Vec<char>) -> (r: Vec<char>)
    ensures
        r@ == strip_cr(l@),
{
    if l.len() > 0 && l[l.len() - 1] == '\r' {
        crate::text::slice_range(l, 0, l.len() - 1)
    } else {
        l.clone()
    }
}

fn text_lines_exec(text: &str) -> (r: Vec<Vec<char>>)
    ensures
        r@.len() == text_lines(text@).len(),
        forall|k: int| 0 <= k < r@.len() ==> #[trigger] r@[k]@ == text_lines(text@)[k],
{
    let v = chars_of(text);
    let p = split_vec(&v, '\n');
    proof {
        crate::text::lemma_split_nonempty(text@, '\n');
    }
    let ghost sp = split(text@, '\n');
    let n = p.len();
    let mut out: Vec<Vec<char>> = Vec::new();
    let mut i: usize = 0;
    while i + 1 < n
        invariant
            n == p@.len(),
            n == sp.len(),
            n >= 1,
            sp == split(text@, '\n'),
            forall|k: int| 0 <= k < p@.len() ==> #[trigger] p@[k]@ == sp[k],
            0 <= i < n,
            out@.len() == i,
            forall|k: int| 0 <= k < i ==> #[trigger] out@[k]@ == strip_cr(sp[k]),
        decreases n - i,
    {
        out.push(strip_cr_exec(&p[i]));
        i += 1;
    }
    if p[n - 1].len() > 0 {
        out.push(p[n - 1].clone());
    }
    proof {
        let expected = text_lines(text@);
        assert(expected.len() == out@.len());
        assert forall|k: int| 0 <= k < out@.len() implies #[trigger] out@[k]@ == expected[k] by {
            if k < n - 1 {
                assert(sp.take(n - 1)[k] == sp[k]);
            }
        }
    }
    out
}

fn last_data_line_exec(lines: &Vec<Vec<char>>, Ghost(ls): Ghost<Seq<Seq<char>>>) -> (r: Option<Vec<char>>)
    requires
        lines@.len() == ls.len(),
        forall|k: int| 0 <= k < ls.len() ==> #[trigger] lines@[k]@ == ls[k],
    ensures
        match r {
            Some(l) => last_data_line(ls) == Some(l@),
            None => last_data_line(ls) is None,
        },
{
    let prefix = chars_of("data:");
    let mut i: usize = lines.len();
    proof {
        assert(ls.take(ls.len() as int) =~= ls);
    }
    while i > 0
        invariant
            0 <= i <= lines.len(),
            lines@.len() == ls.len(),
            forall|k: int| 0 <= k < ls.len() ==> #[trigger] lines@[k]@ == ls[k],
            prefix@ == "data:"@,
            last_data_line(ls) == last_data_line(ls.take(i as int)),
        decreases i,
    {
        let l = &lines[i - 1];
        proof {
            let t = ls.take(i as int);
            assert(t.drop_last() =~= ls.take(i - 1));
            assert(t.last() == ls[i - 1]);
        }
        if crate::text::starts_with_vec(l, &prefix) {
            let rest = crate::text::slice_range(l, prefix.len(), l.len());
            let t = trim_vec(&rest);
            if t.len() > 0 && !vec_is(&t, "[DONE]") {
                return Some(t);
            }
        }
        i -= 1;
    }
    None
}

/// The JSON text an answer carries, or the reading error.
pub fn extract_payload_text(body: &[u8], body_text: &str) -> (r: Result<String, GrsaiError>)
    ensures
        match r {
            Ok(t) => spec_payload_text(body@.len() == 0, body_text@) == Ok::<Seq<char>, Seq<char>>(t@),
            Err(e) => match spec_payload_text(body@.len() == 0, body_text@) {
                Err(d) => error_view(e) == parse_error_model(d, body_text@, None),
                Ok(_) => false,
            },
        },
{
    let tr = trim_str(body_text);
    if body.len() == 0 || tr.as_str().is_empty() {
        return Err(parse_error("响应体为空", body_text, None));
    }
    let v = chars_of(body_text);
    let ts = crate::text::trim_start_vec(&v);
    if ts.len() > 0 && (ts[0] == '{' || ts[0] == '[') {
        return Ok(string_of(&ts));
    }
    let lines = text_lines_exec(body_text);
    match last_data_line_exec(&lines, Ghost(text_lines(body_text@))) {
        Some(l) => Ok(string_of(&l)),
        None => Err(parse_error("未找到可解析的数据段", body_text, None)),
    }
}

/// The status for a business error code (or, for other codes, from the
/// wording of the message).
pub open spec fn spec_business_status(code: i64, message: Seq<char>) -> u16 {
    if code == 400 {
        400
    } else if code == 401 {
        401
    } else if code == 403 {
        403
    } else if code == 404 {
        404
    } else if code == 409 {
        409
    } else if code == 422 {
        422
    } else if code == 429 {
        429
    } else {
        let l = lower(message);
        if contains(l, "api key"@) || contains(l, "unauthorized"@) || contains(l, "auth"@)
            || contains(l, "token"@) || contains(l, "invalid key"@) {
            401
        } else {
            502
        }
    }
}

pub fn guess_business_status(code: i64, message: &str) -> (r: u16)
    ensures
        r == spec_business_status(code, message@),
{
    if code == 400 {
        400
    } else if code == 401 {
        401
    } else if code == 403 {
        403
    } else if code == 404 {
        404
    } else if code == 409 {
        409
    } else if code == 422 {
        422
    } else if code == 429 {
        429
    } else {
        let m = chars_of(message);
        let l = lower_vec(&m);
        let a = chars_of("api key");
        let b = chars_of("unauthorized");
        let c = chars_of("auth");
        let d = chars_of("token");
        let e = chars_of("invalid key");
        if contains_vec(&l, &a) || contains_vec(&l, &b) || contains_vec(&l, &c) || contains_vec(
            &l,
            &d,
        ) || contains_vec(&l, &e) {
            401
        } else {
            502
        }
    }
}

/// `data.failure_reason` of an answer.
pub open spec fn data_failure_reason(fs: Seq<(Seq<char>, Json)>) -> Option<Seq<char>> {
    match as_object(field_get(fs, "data"@)) {
        Some(d) => spec_object_string(d, seq!["failure_reason"@]),
        None => None,
    }
}

pub open spec fn answer_message(fs: Seq<(Seq<char>, Json)>) -> Option<Seq<char>> {
    as_str(first_of_opt(field_get(fs, "msg"@), field_get(fs, "message"@)))
}

pub open spec fn MSG_BUSINESS_ERROR() -> Seq<char> {
    "上游服务返回业务错误"@
}

/// The `data` of an answer with `code` 0; a business error for another
/// code; the answer itself when it has no code.
pub open spec fn spec_unwrap_payload(raw: Json, body_text: Seq<char>) -> Result<
    (Json, Option<i64>),
    GrsaiErrorModel,
> {
    match raw {
        Json::Object(fs) => {
            let message = or_default(answer_message(fs), Seq::empty());
            match as_i64(field_get(fs, "code"@)) {
                Some(c) => if c != 0 {
                    Err(
                        (
                            spec_business_status(c as i64, message),
                            if trim(message).len() == 0 {
                                MSG_BUSINESS_ERROR()
                            } else {
                                message
                            },
                            Some(c as i64),
                            data_failure_reason(fs),
                            body_text,
                            Some(raw),
                        ),
                    )
                } else {
                    match field_get(fs, "data"@) {
                        Some(d) => Ok((d, Some(c as i64))),
                        None => Err(parse_error_model("缺少 data 字段"@, body_text, Some(raw))),
                    }
                },
                None => Ok((raw, None)),
            }
        },
        _ => Ok((raw, None)),
    }
}

/// The error for an answer with a failing HTTP status.
pub open spec fn spec_http_error(status: u16, body_text: Seq<char>, raw: Json) -> GrsaiErrorModel {
    let (message, failure, code) = match raw {
        Json::Object(fs) => (
            nonblank(answer_message(fs)),
            data_failure_reason(fs),
            match as_i64(field_get(fs, "code"@)) {
                Some(c) => Some(c as i64),
                None => None,
            },
        ),
        _ => (None, None, None),
    };
    (
        status,
        or_default(message, or_default(status_canonical_reason(status), "upstream error"@)),
        code,
        failure,
        body_text,
        Some(raw),
    )
}

pub type GrsaiResultModel = (
    Seq<char>,
    Seq<Seq<char>>,
    Option<Seq<char>>,
    Option<Seq<char>>,
    Option<i64>,
    Option<i64>,
    Json,
);

pub open spec fn result_view(r: GrsaiResult) -> GrsaiResultModel {
    (
        r.status@,
        strs(r.image_urls@),
        opt_view(r.failure_reason),
        opt_view(r.error_detail),
        r.start_time,
        r.end_time,
        r.raw_data@,
    )
}

/// The `url` strings of the result items.
pub open spec fn result_urls(items: Seq<Json>) -> Seq<Seq<char>>
    decreases items.len(),
{
    if items.len() == 0 {
        Seq::empty()
    } else {
        let prev = result_urls(items.drop_last());
        match as_str(get(items.last(), "url"@)) {
            Some(u) => prev.push(u),
            None => prev,
        }
    }
}

pub open spec fn opt_i64(v: Option<int>) -> Option<i64> {
    match v {
        Some(c) => Some(c as i64),
        None => None,
    }
}

/// The task status of an answer's payload, trimmed, when not blank.
#[verifier::opaque]
pub open spec fn task_status(fs: Seq<(Seq<char>, Json)>) -> Option<Seq<char>> {
    nonblank(as_str(field_get(fs, "status"@)))
}

/// The `url` strings among the payload's `results`.
#[verifier::opaque]
pub open spec fn task_urls(fs: Seq<(Seq<char>, Json)>) -> Seq<Seq<char>> {
    match as_array(field_get(fs, "results"@)) {
        Some(items) => result_urls(items),
        None => Seq::empty(),
    }
}

#[verifier::opaque]
pub open spec fn task_failure(fs: Seq<(Seq<char>, Json)>) -> Option<Seq<char>> {
    spec_object_string(fs, seq!["failure_reason"@])
}

#[verifier::opaque]
pub open spec fn task_detail(fs: Seq<(Seq<char>, Json)>) -> Option<Seq<char>> {
    spec_object_string(fs, seq!["error_detail"@, "errorDetail"@, "detail"@])
}

#[verifier::opaque]
pub open spec fn task_time(fs: Seq<(Seq<char>, Json)>, key: Seq<char>) -> Option<i64> {
    opt_i64(as_i64(field_get(fs, key)))
}

/// What an answer means: its task status, image URLs and details, or the
/// error.
pub open spec fn spec_interpret(
    status: u16,
    body_text: Seq<char>,
    parsed: Result<Json, Seq<char>>,
) -> Result<GrsaiResultModel, GrsaiErrorModel> {
    match parsed {
        Err(e) => Err(parse_error_model(e, body_text, None)),
        Ok(raw) => if !(200 <= status <= 299) {
            Err(spec_http_error(status, body_text, raw))
        } else {
            match spec_unwrap_payload(raw, body_text) {
                Err(e) => Err(e),
                Ok((payload, code)) => match payload {
                    Json::Object(fs) => match task_status(fs) {
                        None => Err(
                            (
                                502,
                                MSG_PARSE_UPSTREAM_FAILED@ + ": "@ + "缺少 status 字段"@,
                                code,
                                task_failure(fs),
                                body_text,
                                Some(payload),
                            ),
                        ),
                        Some(st) => Ok(
                            (
                                st,
                                task_urls(fs),
                                task_failure(fs),
                                task_detail(fs),
                                task_time(fs, "start_time"@),
                                task_time(fs, "end_time"@),
                                payload,
                            ),
                        ),
                    },
                    _ => Err(
                        (
                            502,
                            MSG_PARSE_UPSTREAM_FAILED@ + ": "@ + "响应 data 不是对象"@,
                            code,
                            None,
                            body_text,
                            Some(payload),
                        ),
                    ),
                },
            }
        },
    }
}

/// What `parse_grsai_response` makes of a status and a body.
pub open spec fn spec_parse_response(status: u16, body: Seq<u8>) -> Result<
    GrsaiResultModel,
    GrsaiErrorModel,
> {
    let text = utf8_lossy_text(body);
    match spec_payload_text(body.len() == 0, text) {
        Err(d) => Err(parse_error_model(d, text, None)),
        Ok(p) => spec_interpret(status, text, json_parse_outcome(p)),
    }
}

fn member_i64(fields: &Vec<(String, JsonValue)>, key: &str) -> (r: Option<i64>)
    ensures
        match r {
            Some(n) => as_i64(field_get(model_fields(fields@), key@)) == Some(n as int),
            None => as_i64(field_get(model_fields(fields@), key@)) is None,
        },
{
    match fields_get(fields, key) {
        Some(v) => v.as_i64(),
        None => None,
    }
}

fn answer_message_exec(fields: &Vec<(String, JsonValue)>) -> (r: Option<&String>)
    ensures
        match r {
            Some(s) => answer_message(model_fields(fields@)) == Some(s@),
            None => answer_message(model_fields(fields@)) is None,
        },
{
    let v = match fields_get(fields, "msg") {
        Some(v) => Some(v),
        None => fields_get(fields, "message"),
    };
    match v {
        Some(JsonValue::Str(s)) => Some(s),
        _ => None,
    }
}

fn data_failure_reason_exec(fields: &Vec<(String, JsonValue)>) -> (r: Option<String>)
    ensures
        opt_view(r) == data_failure_reason(model_fields(fields@)),
{
    match fields_get(fields, "data") {
        Some(JsonValue::Object(d)) => {
            let keys: [&str; 1] = ["failure_reason"];
            proof {
                assert(keys_view(keys@) =~= seq!["failure_reason"@]);
            }
            object_string(d, &keys)
        },
        _ => None,
    }
}

#[verifier::rlimit(100)]
#[verifier::spinoff_prover]
fn unwrap_payload(raw: JsonValue, body_text: &str) -> (r: Result<(JsonValue, Option<i64>), GrsaiError>)
    ensures
        match r {
            Ok((v, c)) => spec_unwrap_payload(raw@, body_text@) == Ok::<_, GrsaiErrorModel>((v@, c)),
            Err(e) => spec_unwrap_payload(raw@, body_text@) == Err::<(Json, Option<i64>), _>(
                error_view(e),
            ),
        },
{
    match raw {
        JsonValue::Object(fields) => {
            let message: String = match answer_message_exec(&fields) {
                Some(s) => s.clone(),
                None => String::new(),
            };
            match member_i64(&fields, "code") {
                Some(c) => {
                    if c != 0 {
                        let status = guess_business_status(c, message.as_str());
                        let failure = data_failure_reason_exec(&fields);
                        let tm = trim_str(message.as_str());
                        let msg = if tm.as_str().is_empty() {
                            own("上游服务返回业务错误")
                        } else {
                            message
                        };
                        return Err(
                            GrsaiError {
                                http_status: status,
                                message: msg,
                                upstream_code: Some(c),
                                failure_reason: failure,
                                body_text: own(body_text),
                                raw_json: Some(JsonValue::Object(fields)),
                            },
                        );
                    }
                    match fields_get(&fields, "data") {
                        Some(d) => Ok((d.deep_clone(), Some(c))),
                        None => Err(
                            parse_error("缺少 data 字段", body_text, Some(JsonValue::Object(fields))),
                        ),
                    }
                },
                None => Ok((JsonValue::Object(fields), None)),
            }
        },
        _ => Ok((raw, None)),
    }
}

#[verifier::rlimit(100)]
#[verifier::spinoff_prover]
fn build_http_error(status: u16, body_text: &str, raw: JsonValue) -> (r: GrsaiError)
    ensures
        error_view(r) == spec_http_error(status, body_text@, raw@),
{
    let (message, failure, code) = match &raw {
        JsonValue::Object(fields) => (
            nonblank_exec(answer_message_exec(fields)),
            data_failure_reason_exec(fields),
            member_i64(fields, "code"),
        ),
        _ => (None, None, None),
    };
    let msg = match message {
        Some(m) => m,
        None => match canonical_reason(status) {
            Some(s) => s,
            None => own("upstream error"),
        },
    };
    GrsaiError {
        http_status: status,
        message: msg,
        upstream_code: code,
        failure_reason: failure,
        body_text: own(body_text),
        raw_json: Some(raw),
    }
}

fn result_urls_exec(items: &Vec<JsonValue>) -> (r: Vec<String>)
    ensures
        strs(r@) == result_urls(model_seq(items@)),
{
    let ghost ms = model_seq(items@);
    proof {
        lemma_model_seq_all(items@);
        assert(ms.subrange(0, 0) =~= Seq::<Json>::empty());
    }
    let mut urls: Vec<String> = Vec::new();
    let mut i: usize = 0;
    while i < items.len()
        invariant
            0 <= i <= items.len(),
            ms == model_seq(items@),
            ms.len() == items@.len(),
            forall|k: int| 0 <= k < items@.len() ==> #[trigger] ms[k] == model(items@[k]),
            strs(urls@) == result_urls(ms.subrange(0, i as int)),
        decreases items.len() - i,
    {
        proof {
            let sub = ms.subrange(0, i + 1);
            assert(sub.drop_last() =~= ms.subrange(0, i as int));
            assert(sub.last() == ms[i as int]);
        }
        match items[i].get_str("url") {
            Some(u) => {
                let ghost before = urls@;
                urls.push(u.clone());
                proof {
                    assert(strs(urls@) =~= strs(before).push(urls@[urls@.len() - 1]@));
                }
            },
            None => {},
        }
        i += 1;
    }
    proof {
        assert(ms.subrange(0, items@.len() as int) =~= ms);
    }
    urls
}

fn task_urls_exec(fields: &Vec<(String, JsonValue)>) -> (r: Vec<String>)
    ensures
        strs(r@) == task_urls(model_fields(fields@)),
{
    reveal(task_urls);
    match fields_get(fields, "results") {
        Some(JsonValue::Array(items)) => result_urls_exec(items),
        _ => {
            let u: Vec<String> = Vec::new();
            proof {
                assert(strs(u@) =~= Seq::<Seq<char>>::empty());
            }
            u
        },
    }
}

fn task_failure_exec(fields: &Vec<(String, JsonValue)>) -> (r: Option<String>)
    ensures
        opt_view(r) == task_failure(model_fields(fields@)),
{
    reveal(task_failure);
    let keys: [&str; 1] = ["failure_reason"];
    proof {
        assert(keys_view(keys@) =~= seq!["failure_reason"@]);
    }
    object_string(fields, &keys)
}

fn task_detail_exec(fields: &Vec<(String, JsonValue)>) -> (r: Option<String>)
    ensures
        opt_view(r) == task_detail(model_fields(fields@)),
{
    reveal(task_detail);
    let keys: [&str; 3] = ["error_detail", "errorDetail", "detail"];
    proof {
        assert(keys_view(keys@) =~= seq!["error_detail"@, "errorDetail"@, "detail"@]);
    }
    object_string(fields, &keys)
}

fn task_time_exec(fields: &Vec<(String, JsonValue)>, key: &str) -> (r: Option<i64>)
    ensures
        r == task_time(model_fields(fields@), key@),
{
    reveal(task_time);
    member_i64(fields, key)
}

fn task_status_exec(fields: &Vec<(String, JsonValue)>) -> (r: Option<String>)
    ensures
        opt_view(r) == task_status(model_fields(fields@)),
{
    reveal(task_status);
    nonblank_exec(fields_get_str(fields, "status"))
}

/// The task fields of an answer's payload object: its status, image URLs,
/// failure reason, error detail and times; `Err` holds the failure reason
/// when the status is missing or blank.
fn task_fields(fields: &Vec<(String, JsonValue)>) -> (r: Result<
    (String, Vec<String>, Option<String>, Option<String>, Option<i64>, Option<i64>),
    Option<String>,
>)
    ensures
        match r {
            Ok(t) => {
                &&& task_status(model_fields(fields@)) == Some(t.0@)
                &&& strs(t.1@) == task_urls(model_fields(fields@))
                &&& opt_view(t.2) == task_failure(model_fields(fields@))
                &&& opt_view(t.3) == task_detail(model_fields(fields@))
                &&& t.4 == task_time(model_fields(fields@), "start_time"@)
                &&& t.5 == task_time(model_fields(fields@), "end_time"@)
            },
            Err(f) => {
                &&& task_status(model_fields(fields@)) is None
                &&& opt_view(f) == task_failure(model_fields(fields@))
            },
        },
{
    let failure = task_failure_exec(fields);
    let status = match task_status_exec(fields) {
        Some(s) => s,
        None => {
            return Err(failure);
        },
    };
    let urls = task_urls_exec(fields);
    let detail = task_detail_exec(fields);
    let start = task_time_exec(fields, "start_time");
    let end = task_time_exec(fields, "end_time");
    Ok((status, urls, failure, detail, start, end))
}

/// Reads an answer of the grsai API from its status, its text and the
/// outcome of parsing its JSON payload (the document, or the parser's
/// error text).
#[verifier::rlimit(100)]
#[verifier::spinoff_prover]
pub fn interpret_grsai_response(status: u16, body_text: &str, parsed: Result<JsonValue, String>) -> (r:
    Result<GrsaiResult, GrsaiError>)
    ensures
        match r {
            Ok(x) => spec_interpret(
                status,
                body_text@,
                match parsed {
                    Ok(v) => Ok::<Json, Seq<char>>(v@),
                    Err(e) => Err(e@),
                },
            ) == Ok::<GrsaiResultModel, GrsaiErrorModel>(result_view(x)),
            Err(e) => spec_interpret(
                status,
                body_text@,
                match parsed {
                    Ok(v) => Ok::<Json, Seq<char>>(v@),
                    Err(e) => Err(e@),
                },
            ) == Err::<GrsaiResultModel, GrsaiErrorModel>(error_view(e)),
        },
{
    let raw = match parsed {
        Ok(v) => v,
        Err(e) => {
            return Err(parse_error(e.as_str(), body_text, None));
        },
    };
    if !(200 <= status && status <= 299) {
        return Err(build_http_error(status, body_text, raw));
    }
    let (payload, code) = match unwrap_payload(raw, body_text) {
        Ok(x) => x,
        Err(e) => {
            return Err(e);
        },
    };
    let fields_outcome = match &payload {
        JsonValue::Object(fields) => Some(task_fields(fields)),
        _ => None,
    };
    let prefix = concat(MSG_PARSE_UPSTREAM_FAILED, ": ");
    match fields_outcome {
        None => Err(
            GrsaiError {
                http_status: 502,
                message: concat(prefix.as_str(), "响应 data 不是对象"),
                upstream_code: code,
                failure_reason: None,
                body_text: own(body_text),
                raw_json: Some(payload),
            },
        ),
        Some(Err(failure)) => Err(
            GrsaiError {
                http_status: 502,
                message: concat(prefix.as_str(), "缺少 status 字段"),
                upstream_code: code,
                failure_reason: failure,
                body_text: own(body_text),
                raw_json: Some(payload),
            },
        ),
        Some(Ok((st, urls, failure, detail, start, end))) => Ok(
            GrsaiResult {
                status: st,
                image_urls: urls,
                failure_reason: failure,
                error_detail: detail,
                start_time: start,
                end_time: end,
                raw_data: payload,
            },
        ),
    }
}

/// Reads an answer of the grsai image API: the task's status, image URLs
/// and details, or the error to report (unreadable body, failing HTTP
/// status, business error code, missing fields).
pub fn parse_grsai_response(status: u16, body: &[u8]) -> (r: Result<GrsaiResult, GrsaiError>)
    ensures
        match r {
            Ok(x) => spec_parse_response(status, body@) == Ok::<GrsaiResultModel, GrsaiErrorModel>(
                result_view(x),
            ),
            Err(e) => spec_parse_response(status, body@) == Err::<GrsaiResultModel, GrsaiErrorModel>(
                error_view(e),
            ),
        },
{
    let body_text = utf8_lossy(body);
    let payload_text = match extract_payload_text(body, body_text.as_str()) {
        Ok(t) => t,
        Err(e) => {
            return Err(e);
        },
    };
    let parsed = parse_json(payload_text.as_str());
    interpret_grsai_response(status, body_text.as_str(), parsed)
}

} // verus!
