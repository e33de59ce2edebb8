//! The decisions of the proxy's request handlers: error bodies, how a
//! failure is classified and logged, the output mode of a request, the
//! upstream URL, the polling of asynchronous image tasks and the URLs of
//! uploaded images. The handlers themselves do the I/O and ask these
//! functions what to do.
use vstd::prelude::*;

use crate::admin::{AdminLogEntry, SanitizedAdminLog};
use crate::config::{spec_resolved_prefix, Config};
use crate::json::{
    as_str, get, get_path, keys_view, lemma_model_fields_ext, lemma_model_seq_all, model_fields,
    model_seq, Json, JsonValue,
};
use crate::response_rewrite::OutputMode;
use crate::text::{
    chars_of, concat, decimal, ends_with, ends_with_str, lower, lower_vec, own, string_of, trim,
    trim_str, trim_vec, u64_to_decimal, vec_is,
};
use crate::upload::{spec_wrap_external, wrap_external_proxy_url};
use crate::urls::{
    form_urlencoded_pairs, form_urlencoded_serialized, pairs_view, parse_query_pairs,
    serialize_query_pairs,
};

verus! {

/// The largest request body the proxy reads.
pub const MAX_REQUEST_BODY_BYTES: usize = 20971520;

/// Seconds between two polls of an asynchronous task.
pub const AIAPIDEV_POLL_INTERVAL_SECS: u64 = 1;

/// The longest an asynchronous task is polled, in seconds.
pub const AIAPIDEV_MAX_POLL_TIME_SECS: u64 = 450;

/// Consecutive failed polls after which polling gives up.
pub const AIAPIDEV_MAX_CONSECUTIVE_POLL_FAILURES: usize = 5;

// ---------------------------------------------------------------------
// Error bodies
// ---------------------------------------------------------------------
pub open spec fn num_json(n: nat) -> Json {
    Json::Number(decimal(n))
}

/// `{"error": {"code", "message", "source", "stage", "kind"}}`.
pub open spec fn spec_proxy_error_json(
    code: u16,
    message: Seq<char>,
    source: Seq<char>,
    stage: Seq<char>,
    kind: Seq<char>,
) -> Json {
    Json::Object(
        seq![
            (
                "error"@,
                Json::Object(
                    seq![
                        ("code"@, num_json(code as nat)),
                        ("message"@, Json::Str(message)),
                        ("source"@, Json::Str(source)),
                        ("stage"@, Json::Str(stage)),
                        ("kind"@, Json::Str(kind)),
                    ],
                ),
            ),
        ],
    )
}

fn str_pair(k: &str, v: &str) -> (r: (String, JsonValue))
    ensures
        r.0@ == k@,
        r.1@ == Json::Str(v@),
{
    (own(k), JsonValue::Str(own(v)))
}

fn code_json(code: u16) -> (r: JsonValue)
    ensures
        r@ == num_json(code as nat),
{
    JsonValue::Number(u64_to_decimal(code as u64))
}

/// The body of an error the proxy reports: its status code, message,
/// source, stage and kind.
pub fn proxy_error_json(code: u16, message: &str, source: &str, stage: &str, kind: &str) -> (r:
    JsonValue)
    ensures
        r@ == spec_proxy_error_json(code, message@, source@, stage@, kind@),
{
    let mut inner: Vec<(String, JsonValue)> = Vec::new();
    inner.push((own("code"), code_json(code)));
    inner.push(str_pair("message", message));
    inner.push(str_pair("source", source));
    inner.push(str_pair("stage", stage));
    inner.push(str_pair("kind", kind));
    proof {
        lemma_model_fields_ext(
            inner@,
            seq![
                ("code"@, num_json(code as nat)),
                ("message"@, Json::Str(message@)),
                ("source"@, Json::Str(source@)),
                ("stage"@, Json::Str(stage@)),
                ("kind"@, Json::Str(kind@)),
            ],
        );
    }
    let ghost iv = model_fields(inner@);
    let mut outer: Vec<(String, JsonValue)> = Vec::new();
    outer.push((own("error"), JsonValue::Object(inner)));
    proof {
        lemma_model_fields_ext(outer@, seq![("error"@, Json::Object(iv))]);
    }
    JsonValue::Object(outer)
}

/// `{"error": {"code", "message"}}`.
pub open spec fn spec_error_json(code: u16, message: Seq<char>) -> Json {
    Json::Object(
        seq![
            (
                "error"@,
                Json::Object(
                    seq![("code"@, num_json(code as nat)), ("message"@, Json::Str(message))],
                ),
            ),
        ],
    )
}

/// The short error body: a status code and a message.
pub fn error_json(code: u16, message: &str) -> (r: JsonValue)
    ensures
        r@ == spec_error_json(code, message@),
{
    let mut inner: Vec<(String, JsonValue)> = Vec::new();
    inner.push((own("code"), code_json(code)));
    inner.push(str_pair("message", message));
    proof {
        lemma_model_fields_ext(
            inner@,
            seq![("code"@, num_json(code as nat)), ("message"@, Json::Str(message@))],
        );
    }
    let ghost iv = model_fields(inner@);
    let mut outer: Vec<(String, JsonValue)> = Vec::new();
    outer.push((own("error"), JsonValue::Object(inner)));
    proof {
        lemma_model_fields_ext(outer@, seq![("error"@, Json::Object(iv))]);
    }
    JsonValue::Object(outer)
}

// ---------------------------------------------------------------------
// Classified failures
// ---------------------------------------------------------------------
/// A failure the proxy classifies: what it reports (message, stage, kind)
/// and the underlying detail it logs.
#[derive(Clone, Debug, PartialEq, Eq)]
pub struct StructuredProxyError {
    pub message: String,
    pub stage: String,
    pub kind: String,
    pub detail: String,
}

pub open spec fn structured_view(s: StructuredProxyError) -> (Seq<char>, Seq<char>, Seq<char>, Seq<char>) {
    (s.message@, s.stage@, s.kind@, s.detail@)
}

impl StructuredProxyError {
    pub fn new(message: &str, stage: &str, kind: &str, detail: String) -> (r: StructuredProxyError)
        ensures
            structured_view(r) == (message@, stage@, kind@, detail@),
    {
        StructuredProxyError { message: own(message), stage: own(stage), kind: own(kind), detail }
    }

    /// The detail, as the error's `Display` shows it.
    pub fn to_string(&self) -> (r: String)
        ensures
            r@ == self.detail@,
    {
        self.detail.clone()
    }
}

/// How a failed upstream request is reported, from what the transport
/// says of it: a timeout, a failed connection, a failure while sending the
/// body, a failure to send, or another transport error.
pub open spec fn spec_transport_class(
    is_timeout: bool,
    is_connect: bool,
    is_body: bool,
    is_request: bool,
) -> (Seq<char>, Seq<char>) {
    if is_timeout {
        ("upstream request timed out"@, "upstream_timeout"@)
    } else if is_connect {
        ("failed to connect to upstream"@, "upstream_connect_failed"@)
    } else if is_body {
        ("failed while sending upstream request body"@, "upstream_request_body_failed"@)
    } else if is_request {
        ("failed to send upstream request"@, "upstream_request_failed"@)
    } else {
        ("upstream transport error"@, "upstream_transport_error"@)
    }
}

/// The classified failure of an upstream request, at the stage
/// `send_upstream_request`, with the transport's error text as detail.
pub fn classify_transport_error(
    is_timeout: bool,
    is_connect: bool,
    is_body: bool,
    is_request: bool,
    detail: String,
) -> (r: StructuredProxyError)
    ensures
        ({
            let (m, k) = spec_transport_class(is_timeout, is_connect, is_body, is_request);
            structured_view(r) == (m, "send_upstream_request"@, k, detail@)
        }),
{
    if is_timeout {
        StructuredProxyError::new("upstream request timed out", "send_upstream_request", "upstream_timeout", detail)
    } else if is_connect {
        StructuredProxyError::new(
            "failed to connect to upstream",
            "send_upstream_request",
            "upstream_connect_failed",
            detail,
        )
    } else if is_body {
        StructuredProxyError::new(
            "failed while sending upstream request body",
            "send_upstream_request",
            "upstream_request_body_failed",
            detail,
        )
    } else if is_request {
        StructuredProxyError::new(
            "failed to send upstream request",
            "send_upstream_request",
            "upstream_request_failed",
            detail,
        )
    } else {
        StructuredProxyError::new(
            "upstream transport error",
            "send_upstream_request",
            "upstream_transport_error",
            detail,
        )
    }
}

/// The body reporting a classified failure (status 502, source `proxy`).
pub fn structured_error_json(structured: &StructuredProxyError) -> (r: JsonValue)
    ensures
        r@ == spec_proxy_error_json(
            502,
            structured.message@,
            "proxy"@,
            structured.stage@,
            structured.kind@,
        ),
{
    proxy_error_json(
        502,
        structured.message.as_str(),
        "proxy",
        structured.stage.as_str(),
        structured.kind.as_str(),
    )
}

/// Records a classified failure in a log entry (source `proxy`).
pub fn apply_structured_proxy_error(entry: &mut AdminLogEntry, structured: &StructuredProxyError)
    ensures
        *final(entry) == (AdminLogEntry {
            error_source: final(entry).error_source,
            error_stage: final(entry).error_stage,
            error_kind: final(entry).error_kind,
            error_message: final(entry).error_message,
            error_detail: final(entry).error_detail,
            ..*old(entry)
        }),
        final(entry).error_source@ == "proxy"@,
        final(entry).error_stage@ == structured.stage@,
        final(entry).error_kind@ == structured.kind@,
        final(entry).error_message@ == structured.message@,
        final(entry).error_detail@ == structured.detail@,
{
    entry.error_source = own("proxy");
    entry.error_stage = structured.stage.clone();
    entry.error_kind = structured.kind.clone();
    entry.error_message = structured.message.clone();
    entry.error_detail = structured.detail.clone();
}

// ---------------------------------------------------------------------
// Error fields of the admin log
// ---------------------------------------------------------------------
pub open spec fn str_or_empty(v: Option<Json>) -> Seq<char> {
    match as_str(v) {
        Some(s) => s,
        None => Seq::empty(),
    }
}

/// The error fields a response body gives a log entry: those of its
/// `error` object, and for an upstream error the status and the body.
pub open spec fn error_fields_applied(
    old_e: AdminLogEntry,
    new_e: AdminLogEntry,
    status: u16,
    body: Json,
    sanitized: Seq<char>,
) -> bool {
    match get(body, "error"@) {
        Some(Json::Object(fs)) => {
            let src = str_or_empty(crate::json::field_get(fs, "source"@));
            &&& new_e.error_source@ == src
            &&& new_e.error_stage@ == str_or_empty(crate::json::field_get(fs, "stage"@))
            &&& new_e.error_kind@ == str_or_empty(crate::json::field_get(fs, "kind"@))
            &&& new_e.error_message@ == str_or_empty(crate::json::field_get(fs, "message"@))
            &&& if src == "upstream"@ {
                new_e.upstream_status_code == status && new_e.upstream_error_body@ == sanitized
            } else {
                new_e.upstream_status_code == old_e.upstream_status_code
                    && new_e.upstream_error_body == old_e.upstream_error_body
            }
            &&& new_e == (AdminLogEntry {
                error_source: new_e.error_source,
                error_stage: new_e.error_stage,
                error_kind: new_e.error_kind,
                error_message: new_e.error_message,
                upstream_status_code: new_e.upstream_status_code,
                upstream_error_body: new_e.upstream_error_body,
                ..old_e
            })
        },
        _ => new_e == old_e,
    }
}

fn member_str_or_empty(fields: &Vec<(String, JsonValue)>, key: &str) -> (r: String)
    ensures
        r@ == str_or_empty(crate::json::field_get(model_fields(fields@), key@)),
{
    match crate::json::fields_get(fields, key) {
        Some(JsonValue::Str(s)) => s.clone(),
        _ => String::new(),
    }
}

/// Copies the `error` object of a response body into a log entry.
pub fn apply_admin_error_fields(
    entry: &mut AdminLogEntry,
    status: u16,
    response_json: &JsonValue,
    sanitized_response: &str,
)
    ensures
        error_fields_applied(*old(entry), *final(entry), status, response_json@, sanitized_response@),
{
    let fields = match response_json.get("error") {
        Some(JsonValue::Object(fields)) => fields,
        _ => {
            return;
        },
    };
    entry.error_source = member_str_or_empty(fields, "source");
    entry.error_stage = member_str_or_empty(fields, "stage");
    entry.error_kind = member_str_or_empty(fields, "kind");
    entry.error_message = member_str_or_empty(fields, "message");
    let sv = chars_of(entry.error_source.as_str());
    if vec_is(&sv, "upstream") {
        entry.upstream_status_code = status;
        entry.upstream_error_body = own(sanitized_response);
    }
}

// ---------------------------------------------------------------------
// Upstream error bodies
// ---------------------------------------------------------------------
/// `map.entry(key).or_insert(value)`: added at the end when absent.
pub open spec fn insert_absent(fs: Seq<(Seq<char>, Json)>, key: Seq<char>, value: Json) -> Seq<
    (Seq<char>, Json),
> {
    match crate::json::field_get(fs, key) {
        Some(_) => fs,
        None => fs.push((key, value)),
    }
}

/// An upstream error object with the proxy's defaults for `code`,
/// `source`, `stage` and `kind` where they are missing.
pub open spec fn annotated_error(fs: Seq<(Seq<char>, Json)>, status: u16) -> Seq<(Seq<char>, Json)> {
    insert_absent(
        insert_absent(
            insert_absent(
                insert_absent(fs, "code"@, num_json(status as nat)),
                "source"@,
                Json::Str("upstream"@),
            ),
            "stage"@,
            Json::Str("upstream_response"@),
        ),
        "kind"@,
        Json::Str("upstream_error"@),
    )
}

/// The text of an upstream error body with its `error` object annotated;
/// `None` when the body is not JSON or has no `error` object.
pub open spec fn spec_annotate(status: u16, body: Seq<u8>) -> Option<Seq<char>> {
    match crate::json_text::json_bytes_parse_outcome(body) {
        Ok(Json::Object(fs)) => match crate::json::field_get(fs, "error"@) {
            Some(Json::Object(efs)) => Some(
                crate::json_text::json_compact_text(
                    Json::Object(
                        crate::json::field_insert(fs, "error"@, Json::Object(annotated_error(efs, status))),
                    ),
                ),
            ),
            _ => None,
        },
        _ => None,
    }
}

fn insert_absent_exec(fields: &mut Vec<(String, JsonValue)>, key: &str, value: JsonValue)
    ensures
        model_fields(final(fields)@) == insert_absent(model_fields(old(fields)@), key@, value@),
{
    if crate::json::fields_get(fields, key).is_none() {
        let ghost before = model_fields(fields@);
        crate::json::fields_insert(fields, own(key), value);
        proof {
            crate::json::lemma_field_index_none(before, key@);
        }
    }
}

fn annotate_error_fields(fields: &mut Vec<(String, JsonValue)>, status: u16)
    ensures
        model_fields(final(fields)@) == annotated_error(model_fields(old(fields)@), status),
{
    insert_absent_exec(fields, "code", code_json(status));
    insert_absent_exec(fields, "source", JsonValue::string("upstream"));
    insert_absent_exec(fields, "stage", JsonValue::string("upstream_response"));
    insert_absent_exec(fields, "kind", JsonValue::string("upstream_error"));
}

/// The text of an upstream error body, annotated as coming from the
/// upstream (see `spec_annotate`).
#[verifier::rlimit(100)]
#[verifier::spinoff_prover]
pub fn annotate_upstream_error_json(status: u16, body_bytes: &[u8]) -> (r: Option<String>)
    ensures
        match r {
            Some(t) => spec_annotate(status, body_bytes@) == Some(t@),
            None => spec_annotate(status, body_bytes@) is None,
        },
{
    let body = match crate::json_text::parse_json_bytes(body_bytes) {
        Ok(b) => b,
        Err(_) => {
            return None;
        },
    };
    let mut fields = match body {
        JsonValue::Object(fields) => fields,
        _ => {
            return None;
        },
    };
    let mut error_fields = match crate::json::fields_get(&fields, "error") {
        Some(JsonValue::Object(efs)) => crate::json::clone_fields(efs),
        _ => {
            return None;
        },
    };
    annotate_error_fields(&mut error_fields, status);
    crate::json::fields_insert(&mut fields, own("error"), JsonValue::Object(error_fields));
    Some(crate::json_text::to_json_string(&JsonValue::Object(fields)))
}

// ---------------------------------------------------------------------
// Output mode and query
// ---------------------------------------------------------------------
/// `value.trim().eq_ignore_ascii_case("url")`.
pub open spec fn is_url_word(s: Seq<char>) -> bool {
    lower(trim(s)) == "url"@
}

fn is_url_word_exec(s: &str) -> (r: bool)
    ensures
        r == is_url_word(s@),
{
    let v = chars_of(s);
    let t = trim_vec(&v);
    let l = lower_vec(&t);
    vec_is(&l, "url")
}

/// Some query pair is `output=url` (value trimmed, case ignored).
pub open spec fn spec_query_wants_url(query: Option<Seq<char>>) -> bool {
    match query {
        Some(q) => pairs_want_url(form_urlencoded_pairs(q)),
        None => false,
    }
}

/// Some pair is `output=url`.
#[verifier::opaque]
pub open spec fn pairs_want_url(ps: Seq<(Seq<char>, Seq<char>)>) -> bool {
    exists|i: int| 0 <= i < ps.len() && is_output_url_pair(#[trigger] ps[i])
}

/// The pair `output=url`.
pub open spec fn is_output_url_pair(p: (Seq<char>, Seq<char>)) -> bool {
    p.0 == "output"@ && is_url_word(p.1)
}

/// Whether the query asks for `output=url`.
pub fn query_contains_output_url(query: Option<&str>) -> (r: bool)
    ensures
        r == spec_query_wants_url(
            match query {
                Some(q) => Some(q@),
                None => None,
            },
        ),
{
    let q = match query {
        Some(q) => q,
        None => {
            return false;
        },
    };
    let pairs = parse_query_pairs(q);
    let ghost ps = form_urlencoded_pairs(q@);
    let mut i: usize = 0;
    while i < pairs.len()
        invariant
            0 <= i <= pairs.len(),
            pairs@.len() == ps.len(),
            ps == form_urlencoded_pairs(q@),
            query == Some(q),
            forall|k: int| 0 <= k < pairs@.len() ==> (#[trigger] pairs@[k].0@, pairs@[k].1@) == ps[k],
            forall|k: int| 0 <= k < i ==> !is_output_url_pair(#[trigger] ps[k]),
        decreases pairs.len() - i,
    {
        let kv = chars_of(pairs[i].0.as_str());
        assert((pairs@[i as int].0@, pairs@[i as int].1@) == ps[i as int]);
        if vec_is(&kv, "output") && is_url_word_exec(pairs[i].1.as_str()) {
            proof {
                assert(is_output_url_pair(ps[i as int]));
                assert(pairs_want_url(ps)) by {
                    reveal(pairs_want_url);
                }
            }
            return true;
        }
        i += 1;
    }
    proof {
        reveal(pairs_want_url);
    }
    false
}

pub open spec fn str_is_url_word(v: Option<Json>) -> bool {
    match as_str(v) {
        Some(s) => is_url_word(s),
        None => false,
    }
}

/// The output mode a request asks for: `url` from the query, the body's
/// `output`, or the image configuration's `output` (either spelling);
/// base64 otherwise.
pub open spec fn spec_output_mode(query: Option<Seq<char>>, body: Json) -> OutputMode {
    if spec_query_wants_url(query) || str_is_url_word(get(body, "output"@)) || str_is_url_word(
        get_path(body, seq!["generationConfig"@, "imageConfig"@, "output"@]),
    ) || str_is_url_word(get_path(body, seq!["generation_config"@, "image_config"@, "output"@])) {
        OutputMode::Url
    } else {
        OutputMode::Base64
    }
}

fn path_is_url_word(body: &JsonValue, keys: &[&str]) -> (r: bool)
    ensures
        r == str_is_url_word(get_path(body@, keys_view(keys@))),
{
    match body.get_path(keys) {
        Some(JsonValue::Str(s)) => is_url_word_exec(s.as_str()),
        _ => false,
    }
}

/// The output mode of a request (see `spec_output_mode`).
#[verifier::rlimit(100)]
#[verifier::spinoff_prover]
pub fn get_output_mode(query: Option<&str>, body: &JsonValue) -> (r: OutputMode)
    ensures
        r == spec_output_mode(
            match query {
                Some(q) => Some(q@),
                None => None,
            },
            body@,
        ),
{
    if query_contains_output_url(query) {
        return OutputMode::Url;
    }
    let direct = match body.get("output") {
        Some(JsonValue::Str(s)) => is_url_word_exec(s.as_str()),
        _ => false,
    };
    if direct {
        return OutputMode::Url;
    }
    let k1: [&str; 3] = ["generationConfig", "imageConfig", "output"];
    let k2: [&str; 3] = ["generation_config", "image_config", "output"];
    proof {
        assert(keys_view(k1@) =~= seq!["generationConfig"@, "imageConfig"@, "output"@]);
        assert(keys_view(k2@) =~= seq!["generation_config"@, "image_config"@, "output"@]);
    }
    if path_is_url_word(body, &k1) || path_is_url_word(body, &k2) {
        return OutputMode::Url;
    }
    OutputMode::Base64
}

/// The name the admin log gives an output mode.
pub fn output_mode_name(mode: OutputMode) -> (r: &'static str)
    ensures
        r@ == (match mode {
            OutputMode::Base64 => "base64"@,
            OutputMode::Url => "url"@,
        }),
{
    match mode {
        OutputMode::Base64 => "base64",
        OutputMode::Url => "url",
    }
}

/// The pairs of a query other than `output`.
pub open spec fn pairs_without_output(ps: Seq<(Seq<char>, Seq<char>)>) -> Seq<(Seq<char>, Seq<char>)>
    decreases ps.len(),
{
    if ps.len() == 0 {
        Seq::empty()
    } else {
        let prev = pairs_without_output(ps.drop_last());
        if ps.last().0 == "output"@ {
            prev
        } else {
            prev.push(ps.last())
        }
    }
}

/// The query the upstream receives: the request's pairs without `output`,
/// re-serialized; none when no pair remains.
pub open spec fn spec_filtered_query(query: Option<Seq<char>>) -> Option<Seq<char>> {
    match query {
        Some(q) => {
            let kept = pairs_without_output(form_urlencoded_pairs(q));
            if kept.len() > 0 {
                Some(form_urlencoded_serialized(kept))
            } else {
                None
            }
        },
        None => None,
    }
}

/// The query without its `output` pairs (see `spec_filtered_query`).
pub fn filter_query_without_output(query: Option<&str>) -> (r: Option<String>)
    ensures
        crate::urls::opt_string_view(r) == spec_filtered_query(
            match query {
                Some(q) => Some(q@),
                None => None,
            },
        ),
{
    let q = match query {
        Some(q) => q,
        None => {
            return None;
        },
    };
    let pairs = parse_query_pairs(q);
    let ghost ps = form_urlencoded_pairs(q@);
    let mut kept: Vec<(String, String)> = Vec::new();
    let mut i: usize = 0;
    proof {
        assert(ps.take(0) =~= Seq::<(Seq<char>, Seq<char>)>::empty());
        assert(pairs_view(kept@) =~= Seq::<(Seq<char>, Seq<char>)>::empty());
    }
    while i < pairs.len()
        invariant
            0 <= i <= pairs.len(),
            pairs@.len() == ps.len(),
            ps == form_urlencoded_pairs(q@),
            forall|k: int| 0 <= k < pairs@.len() ==> (#[trigger] pairs@[k].0@, pairs@[k].1@) == ps[k],
            pairs_view(kept@) == pairs_without_output(ps.take(i as int)),
        decreases pairs.len() - i,
    {
        proof {
            assert(ps.take(i + 1).drop_last() =~= ps.take(i as int));
            assert(ps.take(i + 1).last() == ps[i as int]);
            assert((pairs@[i as int].0@, pairs@[i as int].1@) == ps[i as int]);
        }
        let kv = chars_of(pairs[i].0.as_str());
        if !vec_is(&kv, "output") {
            let ghost before = kept@;
            kept.push((pairs[i].0.clone(), pairs[i].1.clone()));
            proof {
                assert(pairs_view(kept@) =~= pairs_view(before).push(ps[i as int]));
            }
        }
        i += 1;
    }
    proof {
        assert(ps.take(pairs@.len() as int) =~= ps);
    }
    if kept.len() > 0 {
        Some(serialize_query_pairs(&kept))
    } else {
        None
    }
}

/// The serialization of `base` after `Url::set_path(path)` and
/// `Url::set_query(query)`, or the parse error's text.
pub uninterp spec fn url_with_path_and_query(
    base: Seq<char>,
    path: Seq<char>,
    query: Option<Seq<char>>,
) -> Result<Seq<char>, Seq<char>>;

/// Calls `url::Url::parse`, `set_path`, `set_query` and `to_string`; the
/// outcome is named `url_with_path_and_query`.
#[verifier::external_body]
fn rebuild_url(base: &str, path: &str, query: Option<&str>) -> (r: Result<String, String>)
    ensures
        match r {
            Ok(u) => url_with_path_and_query(
                base@,
                path@,
                match query {
                    Some(q) => Some(q@),
                    None => None,
                },
            ) == Ok::<Seq<char>, Seq<char>>(u@),
            Err(e) => url_with_path_and_query(
                base@,
                path@,
                match query {
                    Some(q) => Some(q@),
                    None => None,
                },
            ) == Err::<Seq<char>, Seq<char>>(e@),
        },
{
    match url::Url::parse(base) {
        Ok(mut parsed) => {
            parsed.set_path(path);
            parsed.set_query(query);
            Ok(parsed.to_string())
        },
        Err(err) => Err(err.to_string()),
    }
}

/// The upstream URL for a path: the base URL with that path and the
/// request's query without `output`.
pub fn build_upstream_url(base_url: &str, path: &str, query: Option<&str>) -> (r: Result<String, String>)
    ensures
        match r {
            Ok(u) => url_with_path_and_query(
                base_url@,
                path@,
                spec_filtered_query(
                    match query {
                        Some(q) => Some(q@),
                        None => None,
                    },
                ),
            ) == Ok::<Seq<char>, Seq<char>>(u@),
            Err(e) => url_with_path_and_query(
                base_url@,
                path@,
                spec_filtered_query(
                    match query {
                        Some(q) => Some(q@),
                        None => None,
                    },
                ),
            ) == Err::<Seq<char>, Seq<char>>(e@),
        },
{
    let filtered = filter_query_without_output(query);
    match &filtered {
        Some(f) => rebuild_url(base_url, path, Some(f.as_str())),
        None => rebuild_url(base_url, path, None),
    }
}

// ---------------------------------------------------------------------
// OpenAI style image responses
// ---------------------------------------------------------------------
pub open spec fn MISSING_DATA() -> Seq<char> {
    "upstream response missing data"@
}

pub open spec fn OPENAI_STAGE() -> Seq<char> {
    "rewrite_openai_image_response"@
}

/// The `b64_json` strings of the `data` items (non-blank, as they are), or
/// the classified failure: no `data` array, an empty one, or an item
/// without `b64_json`.
pub open spec fn spec_b64_entries(body: Json) -> Result<
    Seq<Seq<char>>,
    (Seq<char>, Seq<char>, Seq<char>, Seq<char>),
> {
    match crate::json::as_array(get(body, "data"@)) {
        None => Err(
            (MISSING_DATA(), OPENAI_STAGE(), "missing_data"@, "upstream response missing data array"@),
        ),
        Some(items) => if items.len() == 0 {
            Err(
                (
                    MISSING_DATA(),
                    OPENAI_STAGE(),
                    "missing_data"@,
                    "upstream response data array is empty"@,
                ),
            )
        } else {
            b64_items(items)
        },
    }
}

pub open spec fn b64_of(item: Json) -> Option<Seq<char>> {
    match as_str(get(item, "b64_json"@)) {
        Some(s) => if trim(s).len() > 0 {
            Some(s)
        } else {
            None
        },
        None => None,
    }
}

pub open spec fn b64_items(items: Seq<Json>) -> Result<
    Seq<Seq<char>>,
    (Seq<char>, Seq<char>, Seq<char>, Seq<char>),
>
    decreases items.len(),
{
    if items.len() == 0 {
        Ok(Seq::empty())
    } else {
        match b64_items(items.drop_last()) {
            Err(e) => Err(e),
            Ok(prev) => match b64_of(items.last()) {
                Some(s) => Ok(prev.push(s)),
                None => Err(
                    (
                        "upstream response missing b64_json"@,
                        OPENAI_STAGE(),
                        "missing_b64_json"@,
                        "upstream response missing data[].b64_json"@,
                    ),
                ),
            },
        }
    }
}

proof fn lemma_b64_items_err(
    items: Seq<Json>,
    k: int,
    e: (Seq<char>, Seq<char>, Seq<char>, Seq<char>),
)
    requires
        0 <= k <= items.len(),
        b64_items(items.take(k)) == Err::<Seq<Seq<char>>, _>(e),
    ensures
        b64_items(items) == Err::<Seq<Seq<char>>, _>(e),
    decreases items.len() - k,
{
    if k < items.len() {
        assert(items.take(k + 1).drop_last() =~= items.take(k));
        lemma_b64_items_err(items, k + 1, e);
    } else {
        assert(items.take(k) =~= items);
    }
}

/// The base64 images of an OpenAI style image response (see
/// `spec_b64_entries`).
#[verifier::rlimit(100)]
#[verifier::spinoff_prover]
pub fn extract_openai_b64_json_entries(body: &JsonValue) -> (r: Result<
    Vec<String>,
    StructuredProxyError,
>)
    ensures
        match r {
            Ok(v) => spec_b64_entries(body@) == Ok::<_, (Seq<char>, Seq<char>, Seq<char>, Seq<char>)>(
                crate::text::strs_view(v@),
            ),
            Err(e) => spec_b64_entries(body@) == Err::<Seq<Seq<char>>, _>(structured_view(e)),
        },
{
    let items = match body.get("data") {
        Some(JsonValue::Array(items)) => items,
        _ => {
            return Err(
                StructuredProxyError::new(
                    "upstream response missing data",
                    "rewrite_openai_image_response",
                    "missing_data",
                    own("upstream response missing data array"),
                ),
            );
        },
    };
    if items.len() == 0 {
        proof {
            crate::json::lemma_model_seq_len(items@);
        }
        return Err(
            StructuredProxyError::new(
                "upstream response missing data",
                "rewrite_openai_image_response",
                "missing_data",
                own("upstream response data array is empty"),
            ),
        );
    }
    let ghost ms = model_seq(items@);
    let mut out: Vec<String> = Vec::new();
    proof {
        lemma_model_seq_all(items@);
        assert(ms.take(0) =~= Seq::<Json>::empty());
        assert(crate::text::strs_view(out@) =~= Seq::<Seq<char>>::empty());
    }
    let mut i: usize = 0;
    while i < items.len()
        invariant
            0 <= i <= items.len(),
            ms == model_seq(items@),
            ms.len() == items@.len(),
            items@.len() > 0,
            get(body@, "data"@) == Some(Json::Array(ms)),
            forall|k: int| 0 <= k < items@.len() ==> #[trigger] ms[k] == crate::json::model(items@[k]),
            b64_items(ms.take(i as int)) == Ok::<_, (Seq<char>, Seq<char>, Seq<char>, Seq<char>)>(
                crate::text::strs_view(out@),
            ),
        decreases items.len() - i,
    {
        proof {
            assert(ms.take(i + 1).drop_last() =~= ms.take(i as int));
            assert(ms.take(i + 1).last() == ms[i as int]);
        }
        let found = match items[i].get_str("b64_json") {
            Some(s) => {
                let t = trim_str(s.as_str());
                if t.as_str().is_empty() {
                    None
                } else {
                    Some(s.clone())
                }
            },
            None => None,
        };
        match found {
            Some(s) => {
                let ghost before = out@;
                out.push(s);
                proof {
                    assert(crate::text::strs_view(out@) =~= crate::text::strs_view(before).push(
                        out@[out@.len() - 1]@,
                    ));
                }
            },
            None => {
                let e = StructuredProxyError::new(
                    "upstream response missing b64_json",
                    "rewrite_openai_image_response",
                    "missing_b64_json",
                    own("upstream response missing data[].b64_json"),
                );
                proof {
                    lemma_b64_items_err(ms, i + 1, structured_view(e));
                }
                return Err(e);
            },
        }
        i += 1;
    }
    proof {
        assert(ms.take(items@.len() as int) =~= ms);
    }
    Ok(out)
}

/// The URL an OpenAI style response gives for an uploaded image: wrapped by
/// the external image proxy when standard output URLs are proxied, the
/// image is not on R2 and a proxy prefix is set.
pub open spec fn spec_openai_output_url(
    proxy_standard_output_urls: bool,
    prefix: Seq<char>,
    provider: Seq<char>,
    target: Seq<char>,
) -> Seq<char> {
    if proxy_standard_output_urls && lower(provider) != "r2"@ && trim(prefix).len() > 0 {
        spec_wrap_external(prefix, target)
    } else {
        target
    }
}

pub fn build_openai_image_output_url(config: &Config, provider: &str, target_url: &str) -> (r: String)
    ensures
        r@ == spec_openai_output_url(
            config.proxy_standard_output_urls,
            spec_resolved_prefix(config.external_image_proxy_prefix@, config.public_base_url@),
            provider@,
            target_url@,
        ),
{
    let prefix = config.resolved_external_image_proxy_prefix();
    let pv = chars_of(provider);
    let pl = lower_vec(&pv);
    let t = trim_str(prefix.as_str());
    if config.proxy_standard_output_urls && !vec_is(&pl, "r2") && !t.as_str().is_empty() {
        return wrap_external_proxy_url(prefix.as_str(), target_url);
    }
    own(target_url)
}

// ---------------------------------------------------------------------
// Asynchronous image tasks
// ---------------------------------------------------------------------
pub open spec fn spec_is_terminal(status: Seq<char>) -> bool {
    status == "succeeded"@ || status == "failed"@ || status == "error"@ || status == "cancelled"@
        || status == "canceled"@ || status == "timeout"@
}

/// Whether a task status ends polling.
pub fn is_aiapidev_terminal_status(status: &str) -> (r: bool)
    ensures
        r == spec_is_terminal(status@),
{
    let v = chars_of(status);
    vec_is(&v, "succeeded") || vec_is(&v, "failed") || vec_is(&v, "error") || vec_is(&v, "cancelled")
        || vec_is(&v, "canceled") || vec_is(&v, "timeout")
}

pub open spec fn spec_is_retryable(status: u16) -> bool {
    status == 408 || status == 425 || status == 429 || status == 500 || status == 502 || status
        == 503 || status == 504
}

/// Whether a failed poll is worth repeating (timeouts, rate limits and
/// server errors).
pub fn is_aiapidev_retryable_poll_status(status: u16) -> (r: bool)
    ensures
        r == spec_is_retryable(status),
{
    status == 408 || status == 425 || status == 429 || status == 500 || status == 502 || status
        == 503 || status == 504
}

/// A task's `status`, in lower case (empty when missing).
pub open spec fn spec_task_status(task: Json) -> Seq<char> {
    lower(str_or_empty(get(task, "status"@)))
}

pub fn task_status_text(task: &JsonValue) -> (r: String)
    ensures
        r@ == spec_task_status(task@),
{
    match task.get_str("status") {
        Some(s) => {
            let v = chars_of(s.as_str());
            let l = lower_vec(&v);
            string_of(&l)
        },
        None => String::new(),
    }
}

/// The `requestId` of a created task, when it is a non-blank string.
pub open spec fn spec_request_id(task: Json) -> Option<Seq<char>> {
    match as_str(get(task, "requestId"@)) {
        Some(s) => if trim(s).len() > 0 {
            Some(s)
        } else {
            None
        },
        None => None,
    }
}

pub fn created_request_id(task: &JsonValue) -> (r: Option<String>)
    ensures
        crate::urls::opt_string_view(r) == spec_request_id(task@),
{
    match task.get_str("requestId") {
        Some(s) => {
            let t = trim_str(s.as_str());
            if t.as_str().is_empty() {
                None
            } else {
                Some(s.clone())
            }
        },
        None => None,
    }
}

/// The path that polls a task.
pub fn task_poll_path(request_id: &str) -> (r: String)
    ensures
        r@ == "/v1beta/tasks/"@ + request_id@,
{
    concat("/v1beta/tasks/", request_id)
}

pub open spec fn nonblank_str(v: Option<Json>) -> Option<Seq<char>> {
    match as_str(v) {
        Some(s) => if trim(s).len() > 0 {
            Some(s)
        } else {
            None
        },
        None => None,
    }
}

/// Why a finished task failed: nothing when it succeeded; else its
/// `errorMessage`, its `errorCode`, or a fixed message.
pub open spec fn spec_task_failure(task: Json) -> Option<Seq<char>> {
    if spec_task_status(task) == "succeeded"@ {
        None
    } else {
        match nonblank_str(get(task, "errorMessage"@)) {
            Some(m) => Some(m),
            None => match nonblank_str(get(task, "errorCode"@)) {
                Some(c) => Some(c),
                None => Some("aiapidev task failed"@),
            },
        }
    }
}

fn nonblank_member(task: &JsonValue, key: &str) -> (r: Option<String>)
    ensures
        crate::urls::opt_string_view(r) == nonblank_str(get(task@, key@)),
{
    match task.get_str(key) {
        Some(s) => {
            let t = trim_str(s.as_str());
            if t.as_str().is_empty() {
                None
            } else {
                Some(s.clone())
            }
        },
        None => None,
    }
}

pub fn aiapidev_task_failure(task: &JsonValue) -> (r: Option<String>)
    ensures
        crate::urls::opt_string_view(r) == spec_task_failure(task@),
{
    let st = task_status_text(task);
    let sv = chars_of(st.as_str());
    if vec_is(&sv, "succeeded") {
        return None;
    }
    match nonblank_member(task, "errorMessage") {
        Some(m) => Some(m),
        None => match nonblank_member(task, "errorCode") {
            Some(c) => Some(c),
            None => Some(own("aiapidev task failed")),
        },
    }
}

/// What a poll of a task brought back.
#[derive(Clone, Debug, PartialEq, Eq)]
pub enum PollOutcome {
    /// The request could not be sent.
    SendFailed,
    /// The upstream answered with a failing status.
    HttpFailed { code: u16 },
    /// The upstream answered, but not with JSON.
    InvalidJson,
    /// The task, with its status in lower case.
    Task { status: String },
}

/// What the poller does next.
#[derive(Clone, Copy, Debug, PartialEq, Eq, Structural)]
pub enum PollAction {
    /// Wait the poll interval and poll again.
    Retry,
    /// Give up with the transport error (502).
    FailWithSendError,
    /// Give up and pass the upstream's answer on.
    ReturnUpstreamResponse,
    /// Give up: the poll time is over (502).
    TimedOut,
    /// Give up: the answer was not JSON (502).
    FailInvalidJson,
    /// The task is finished; its body is the result.
    Finished,
}

/// One polling decision: the consecutive failures after the poll and the
/// next action. Transport failures and retryable statuses count as
/// failures; the fifth in a row ends polling. A successful answer resets
/// the count.
pub open spec fn spec_poll_step(failures: nat, outcome: PollOutcome, deadline_passed: bool) -> (
    nat,
    PollAction,
) {
    match outcome {
        PollOutcome::SendFailed => {
            let f = failures + 1;
            if f >= AIAPIDEV_MAX_CONSECUTIVE_POLL_FAILURES {
                (f, PollAction::FailWithSendError)
            } else if deadline_passed {
                (f, PollAction::TimedOut)
            } else {
                (f, PollAction::Retry)
            }
        },
        PollOutcome::HttpFailed { code } => if !spec_is_retryable(code) {
            (failures, PollAction::ReturnUpstreamResponse)
        } else {
            let f = failures + 1;
            if f >= AIAPIDEV_MAX_CONSECUTIVE_POLL_FAILURES {
                (f, PollAction::ReturnUpstreamResponse)
            } else if deadline_passed {
                (f, PollAction::TimedOut)
            } else {
                (f, PollAction::Retry)
            }
        },
        PollOutcome::InvalidJson => (0, PollAction::FailInvalidJson),
        PollOutcome::Task { status } => if spec_is_terminal(status@) {
            (0, PollAction::Finished)
        } else if deadline_passed {
            (0, PollAction::TimedOut)
        } else {
            (0, PollAction::Retry)
        },
    }
}

/// Decides the next step of polling an asynchronous task.
pub fn aiapidev_poll_step(consecutive_failures: usize, outcome: &PollOutcome, deadline_passed: bool) -> (r:
    (usize, PollAction))
    requires
        consecutive_failures < AIAPIDEV_MAX_CONSECUTIVE_POLL_FAILURES,
    ensures
        (r.0 as nat, r.1) == spec_poll_step(consecutive_failures as nat, *outcome, deadline_passed),
        r.1 == PollAction::Retry ==> r.0 < AIAPIDEV_MAX_CONSECUTIVE_POLL_FAILURES,
{
    match outcome {
        PollOutcome::SendFailed => {
            let f = consecutive_failures + 1;
            if f >= AIAPIDEV_MAX_CONSECUTIVE_POLL_FAILURES {
                (f, PollAction::FailWithSendError)
            } else if deadline_passed {
                (f, PollAction::TimedOut)
            } else {
                (f, PollAction::Retry)
            }
        },
        PollOutcome::HttpFailed { code } => {
            if !is_aiapidev_retryable_poll_status(*code) {
                return (consecutive_failures, PollAction::ReturnUpstreamResponse);
            }
            let f = consecutive_failures + 1;
            if f >= AIAPIDEV_MAX_CONSECUTIVE_POLL_FAILURES {
                (f, PollAction::ReturnUpstreamResponse)
            } else if deadline_passed {
                (f, PollAction::TimedOut)
            } else {
                (f, PollAction::Retry)
            }
        },
        PollOutcome::InvalidJson => (0, PollAction::FailInvalidJson),
        PollOutcome::Task { status } => {
            if is_aiapidev_terminal_status(status.as_str()) {
                (0, PollAction::Finished)
            } else if deadline_passed {
                (0, PollAction::TimedOut)
            } else {
                (0, PollAction::Retry)
            }
        },
    }
}

/// The first action other than `Retry` when the polls bring back
/// `outcomes` (the deadline passed or not at each), starting from
/// `failures` consecutive failures; `None` when every poll says retry.
pub open spec fn poll_run(failures: nat, outcomes: Seq<PollOutcome>, deadlines: Seq<bool>) -> Option<
    PollAction,
>
    decreases outcomes.len(),
{
    if outcomes.len() == 0 || deadlines.len() == 0 {
        None
    } else {
        let (f, a) = spec_poll_step(failures, outcomes[0], deadlines[0]);
        if a != PollAction::Retry {
            Some(a)
        } else {
            poll_run(f, outcomes.drop_first(), deadlines.drop_first())
        }
    }
}

pub open spec fn is_failure_outcome(o: PollOutcome) -> bool {
    match o {
        PollOutcome::SendFailed => true,
        PollOutcome::HttpFailed { code } => spec_is_retryable(code),
        _ => false,
    }
}

/// Polling gives up at the latest on the fifth failure in a row (a
/// transport failure or a retryable status), whatever the deadline.
pub proof fn lemma_poll_gives_up_after_consecutive_failures(
    failures: nat,
    outcomes: Seq<PollOutcome>,
    deadlines: Seq<bool>,
)
    requires
        failures < AIAPIDEV_MAX_CONSECUTIVE_POLL_FAILURES,
        outcomes.len() == AIAPIDEV_MAX_CONSECUTIVE_POLL_FAILURES - failures,
        deadlines.len() == outcomes.len(),
        forall|i: int| 0 <= i < outcomes.len() ==> is_failure_outcome(#[trigger] outcomes[i]),
    ensures
        poll_run(failures, outcomes, deadlines) is Some,
    decreases outcomes.len(),
{
    let (f, a) = spec_poll_step(failures, outcomes[0], deadlines[0]);
    if a == PollAction::Retry {
        assert(f == failures + 1);
        assert forall|i: int| 0 <= i < outcomes.drop_first().len() implies is_failure_outcome(
            #[trigger] outcomes.drop_first()[i],
        ) by {
            assert(outcomes.drop_first()[i] == outcomes[i + 1]);
        }
        lemma_poll_gives_up_after_consecutive_failures(
            f,
            outcomes.drop_first(),
            deadlines.drop_first(),
        );
    }
}

/// A successful answer from the upstream resets the failure count.
pub proof fn lemma_successful_poll_resets_failures(
    failures: nat,
    outcome: PollOutcome,
    deadline_passed: bool,
)
    requires
        outcome is Task || outcome is InvalidJson,
    ensures
        spec_poll_step(failures, outcome, deadline_passed).0 == 0,
{
}

// ---------------------------------------------------------------------
// The admin log entry of a request
// ---------------------------------------------------------------------
fn clone_strings(v: &Vec<String>) -> (r: Vec<String>)
    ensures
        crate::text::strs_view(r@) == crate::text::strs_view(v@),
{
    let mut out: Vec<String> = Vec::new();
    let mut i: usize = 0;
    while i < v.len()
        invariant
            0 <= i <= v.len(),
            crate::text::strs_view(out@) == crate::text::strs_view(v@).take(i as int),
        decreases v.len() - i,
    {
        let ghost before = out@;
        out.push(v[i].clone());
        proof {
            assert(crate::text::strs_view(out@) =~= crate::text::strs_view(before).push(v@[i as int]@));
            assert(crate::text::strs_view(v@).take(i + 1) =~= crate::text::strs_view(v@).take(
                i as int,
            ).push(v@[i as int]@));
        }
        i += 1;
    }
    proof {
        assert(crate::text::strs_view(v@).take(v@.len() as int) =~= crate::text::strs_view(v@));
    }
    out
}

/// The request body as the admin log keeps it (when the log is on).
#[derive(Clone, Debug)]
pub struct RequestLogSnapshot {
    pub request_raw: Option<SanitizedAdminLog>,
}

/// The sanitized request body, when the admin log is enabled.
pub fn sanitize_request_body_for_log(raw: &[u8], enabled: bool) -> (r: Option<SanitizedAdminLog>)
    ensures
        match r {
            Some(s) => enabled && crate::admin::is_sanitized_log(raw@, s),
            None => !enabled,
        },
{
    crate::admin::maybe_sanitize_json_for_log(raw, enabled)
}

/// The entry with the request body's fields of a snapshot.
pub open spec fn with_request_raw(e: AdminLogEntry, raw: Option<SanitizedAdminLog>, n: AdminLogEntry) -> bool {
    match raw {
        Some(v) => {
            &&& n.request_raw@ == v.pretty@
            &&& crate::text::strs_view(n.request_raw_images@) == crate::text::strs_view(v.image_urls@)
            &&& n == (AdminLogEntry {
                request_raw: n.request_raw,
                request_raw_images: n.request_raw_images,
                ..e
            })
        },
        None => n == e,
    }
}

impl RequestLogSnapshot {
    pub fn from_request_body(raw: &[u8], enabled: bool) -> (r: RequestLogSnapshot)
        ensures
            match r.request_raw {
                Some(s) => enabled && crate::admin::is_sanitized_log(raw@, s),
                None => !enabled,
            },
    {
        RequestLogSnapshot { request_raw: sanitize_request_body_for_log(raw, enabled) }
    }

    /// Puts the sanitized body and its image URLs into a log entry.
    pub fn apply_to_entry(&self, entry: &mut AdminLogEntry)
        ensures
            with_request_raw(*old(entry), self.request_raw, *final(entry)),
    {
        match &self.request_raw {
            Some(value) => {
                entry.request_raw = value.pretty.clone();
                entry.request_raw_images = clone_strings(&value.image_urls);
            },
            None => {},
        }
    }

    /// A blank log entry with the sanitized body.
    pub fn base_entry(&self) -> (r: AdminLogEntry)
        ensures
            exists|b: AdminLogEntry| crate::admin::is_blank_entry(b) && with_request_raw(b, self.request_raw, r),
    {
        let mut entry = AdminLogEntry::default();
        let ghost b = entry;
        self.apply_to_entry(&mut entry);
        entry
    }
}

/// What the handler knows of a request before forwarding it.
#[derive(Clone, Debug)]
pub struct RequestMeta {
    pub created_at: String,
    pub method: String,
    pub path: String,
    pub query: String,
    pub remote_addr: String,
}

/// The entry with the request's description.
pub open spec fn with_meta(e: AdminLogEntry, m: RequestMeta, n: AdminLogEntry) -> bool {
    &&& n.created_at@ == m.created_at@ && n.method@ == m.method@ && n.path@ == m.path@
    &&& n.query@ == m.query@ && n.remote_addr@ == m.remote_addr@
    &&& n == (AdminLogEntry {
        created_at: n.created_at,
        method: n.method,
        path: n.path,
        query: n.query,
        remote_addr: n.remote_addr,
        ..e
    })
}

fn put_meta(entry: &mut AdminLogEntry, meta: &RequestMeta)
    ensures
        with_meta(*old(entry), *meta, *final(entry)),
{
    entry.created_at = meta.created_at.clone();
    entry.method = meta.method.clone();
    entry.path = meta.path.clone();
    entry.query = meta.query.clone();
    entry.remote_addr = meta.remote_addr.clone();
}

/// The entry of a forwarded request once its answer is known: the request
/// described, not a stream, the parse time added, the total duration set;
/// a failed forward is logged with status 502.
pub fn finish_forwarded_entry(
    entry: &mut AdminLogEntry,
    meta: &RequestMeta,
    request_parse_ms: i64,
    duration_ms: i64,
    failed: bool,
)
    ensures
        exists|m: AdminLogEntry| with_meta(*old(entry), *meta, m) && *final(entry) == (AdminLogEntry {
            is_stream: false,
            status_code: if failed { 502 } else { m.status_code },
            request_parse_ms: crate::admin::wrap_add(m.request_parse_ms, request_parse_ms),
            duration_ms: duration_ms,
            ..m
        }),
{
    put_meta(entry, meta);
    let ghost m = *entry;
    entry.is_stream = false;
    if failed {
        entry.status_code = 502;
    }
    entry.request_parse_ms = wrapping_add(entry.request_parse_ms, request_parse_ms);
    entry.duration_ms = duration_ms;
}

fn wrapping_add(a: i64, b: i64) -> (r: i64)
    ensures
        r == crate::admin::wrap_add(a, b),
{
    let s = a as i128 + b as i128;
    if s > i64::MAX as i128 {
        (s - 0x1_0000_0000_0000_0000i128) as i64
    } else if s < i64::MIN as i128 {
        (s + 0x1_0000_0000_0000_0000i128) as i64
    } else {
        s as i64
    }
}

/// Every field but the request's description, status and times is blank.
pub open spec fn blank_but_meta_and_times(e: AdminLogEntry) -> bool {
    &&& e.id == 0 && !e.is_stream && e.upstream_status_code == 0
    &&& e.output_mode@.len() == 0 && e.finish_reason@.len() == 0 && e.request_raw@.len() == 0
    &&& e.request_raw_images@.len() == 0 && e.request_raw_image_cache_hits@.len() == 0
    &&& e.request_upstream@.len() == 0 && e.request_upstream_images@.len() == 0
    &&& e.response_downstream@.len() == 0 && e.response_images@.len() == 0
    &&& e.error_source@.len() == 0 && e.error_stage@.len() == 0 && e.error_kind@.len() == 0
    &&& e.error_message@.len() == 0 && e.error_detail@.len() == 0
    &&& e.upstream_error_body@.len() == 0
    &&& e.upstream_build_ms == 0 && e.request_image_prepare_ms == 0
    &&& e.request_image_materialize_ms == 0 && e.request_image_fetch_work_ms == 0
    &&& e.request_image_store_work_ms == 0 && e.request_encode_ms == 0
    &&& e.response_process_ms == 0 && e.upload_ms == 0
}

/// The entry of a request answered before it was forwarded: described,
/// with its status and times and nothing else.
pub fn status_entry(meta: &RequestMeta, status: u16, duration_ms: i64, request_parse_ms: i64) -> (r:
    AdminLogEntry)
    ensures
        blank_but_meta_and_times(r),
        r.created_at@ == meta.created_at@ && r.method@ == meta.method@ && r.path@ == meta.path@,
        r.query@ == meta.query@ && r.remote_addr@ == meta.remote_addr@,
        r.status_code == status && r.duration_ms == duration_ms && r.request_parse_ms
            == request_parse_ms,
{
    let mut entry = AdminLogEntry::default();
    put_meta(&mut entry, meta);
    entry.status_code = status;
    entry.duration_ms = duration_ms;
    entry.request_parse_ms = request_parse_ms;
    entry
}

/// The entry of a request the proxy refused before forwarding it: its
/// status and times, and the proxy's error (stage, kind, message, detail).
pub fn proxy_error_entry(
    meta: &RequestMeta,
    status: u16,
    duration_ms: i64,
    request_parse_ms: i64,
    structured: &StructuredProxyError,
) -> (r: AdminLogEntry)
    ensures
        r.status_code == status && r.duration_ms == duration_ms && r.request_parse_ms
            == request_parse_ms,
        r.error_source@ == "proxy"@,
        r.error_stage@ == structured.stage@,
        r.error_kind@ == structured.kind@,
        r.error_message@ == structured.message@,
        r.error_detail@ == structured.detail@,
        r.created_at@ == meta.created_at@ && r.method@ == meta.method@ && r.path@ == meta.path@,
        r.query@ == meta.query@ && r.remote_addr@ == meta.remote_addr@,
        !r.is_stream && r.id == 0 && r.upstream_status_code == 0,
{
    let mut entry = status_entry(meta, status, duration_ms, request_parse_ms);
    apply_structured_proxy_error(&mut entry, structured);
    entry
}

/// The request's body fields of an entry (the body sent upstream).
pub fn apply_request_upstream(entry: &mut AdminLogEntry, upstream: &Option<SanitizedAdminLog>)
    ensures
        match upstream {
            Some(v) => final(entry).request_upstream@ == v.pretty@ && crate::text::strs_view(
                final(entry).request_upstream_images@,
            ) == crate::text::strs_view(v.image_urls@),
            None => final(entry).request_upstream@.len() == 0
                && final(entry).request_upstream_images@.len() == 0,
        },
        *final(entry) == (AdminLogEntry {
            request_upstream: final(entry).request_upstream,
            request_upstream_images: final(entry).request_upstream_images,
            ..*old(entry)
        }),
{
    match upstream {
        Some(v) => {
            entry.request_upstream = v.pretty.clone();
            entry.request_upstream_images = clone_strings(&v.image_urls);
        },
        None => {
            entry.request_upstream = String::new();
            entry.request_upstream_images = Vec::new();
        },
    }
}

/// The images a request took from a cache, in the order it took them.
pub struct RequestCacheTracking {
    pub hit_urls: Vec<String>,
}

/// Tracking for one request; it notes cache hits only when the admin log
/// (and so its statistics) is enabled.
pub fn build_request_cache_tracking() -> (r: RequestCacheTracking)
    ensures
        r.hit_urls@.len() == 0,
{
    RequestCacheTracking { hit_urls: Vec::new() }
}

impl RequestCacheTracking {
    /// Notes an image fetch. With statistics enabled, a fetch served from a
    /// cache keeps its URL and is to be counted (the result says so);
    /// anything else changes nothing.
    pub fn observe(&mut self, stats_enabled: bool, url: &str, from_cache: bool) -> (counted: bool)
        ensures
            counted == (stats_enabled && from_cache),
            crate::text::strs_view(final(self).hit_urls@) == if counted {
                crate::text::strs_view(old(self).hit_urls@).push(url@)
            } else {
                crate::text::strs_view(old(self).hit_urls@)
            },
    {
        if stats_enabled && from_cache {
            let ghost before = self.hit_urls@;
            self.hit_urls.push(own(url));
            proof {
                assert(crate::text::strs_view(self.hit_urls@) =~= crate::text::strs_view(before).push(url@));
            }
            true
        } else {
            false
        }
    }
}

/// Records the images a request took from a cache.
pub fn update_request_cache_hits(entry: &mut AdminLogEntry, hit_urls: &Vec<String>)
    ensures
        crate::text::strs_view(final(entry).request_raw_image_cache_hits@) == crate::text::strs_view(
            hit_urls@,
        ),
        *final(entry) == (AdminLogEntry {
            request_raw_image_cache_hits: final(entry).request_raw_image_cache_hits,
            ..*old(entry)
        }),
{
    entry.request_raw_image_cache_hits = clone_strings(hit_urls);
}

/// The body reporting a failed forward: the classified failure when the
/// handler classifies it (and then the entry records it), else the error's
/// text (status 502 either way).
pub fn failure_response(
    entry: &mut AdminLogEntry,
    classify: bool,
    structured: Option<&StructuredProxyError>,
    error_text: &str,
) -> (r: JsonValue)
    ensures
        match (classify, structured) {
            (true, Some(s)) => r@ == spec_proxy_error_json(
                502,
                s.message@,
                "proxy"@,
                s.stage@,
                s.kind@,
            ) && final(entry).error_source@ == "proxy"@ && final(entry).error_stage@ == s.stage@
                && final(entry).error_kind@ == s.kind@ && final(entry).error_message@ == s.message@
                && final(entry).error_detail@ == s.detail@ && *final(entry) == (AdminLogEntry {
                error_source: final(entry).error_source,
                error_stage: final(entry).error_stage,
                error_kind: final(entry).error_kind,
                error_message: final(entry).error_message,
                error_detail: final(entry).error_detail,
                ..*old(entry)
            }),
            _ => r@ == spec_error_json(502, error_text@) && *final(entry) == *old(entry),
        },
{
    if classify {
        if let Some(s) = structured {
            apply_structured_proxy_error(entry, s);
            return structured_error_json(s);
        }
    }
    error_json(502, error_text)
}

/// The headers a forwarded Gemini request carries besides the caller's
/// content type and accept: the body's length, and the upstream key both
/// as `x-goog-api-key` and as a `Bearer` authorization.
pub open spec fn spec_upstream_headers(body_len: nat, api_key: Seq<char>) -> Seq<(Seq<char>, Seq<char>)> {
    seq![
        ("content-length"@, decimal(body_len)),
        ("x-goog-api-key"@, api_key),
        ("authorization"@, "Bearer "@ + api_key),
    ]
}

pub fn upstream_request_headers(body_len: u64, api_key: &str) -> (r: Vec<(String, String)>)
    ensures
        r@.len() == 3,
        forall|i: int|
            0 <= i < 3 ==> (#[trigger] r@[i]).0@ == spec_upstream_headers(body_len as nat, api_key@)[i].0
                && r@[i].1@ == spec_upstream_headers(body_len as nat, api_key@)[i].1,
{
    let mut v: Vec<(String, String)> = Vec::new();
    v.push((own("content-length"), u64_to_decimal(body_len)));
    v.push((own("x-goog-api-key"), own(api_key)));
    v.push((own("authorization"), concat("Bearer ", api_key)));
    v
}

/// Whether a request is logged as slow: a threshold is set and the request
/// took at least that long.
pub open spec fn spec_is_slow(threshold_is_zero: bool, threshold_ms: u128, duration_ms: i64) -> bool {
    !threshold_is_zero && !(duration_ms < threshold_ms as i64)
}

pub fn is_slow_request(threshold_is_zero: bool, threshold_ms: u128, duration_ms: i64) -> (r: bool)
    ensures
        r == spec_is_slow(threshold_is_zero, threshold_ms, duration_ms),
{
    if threshold_is_zero {
        return false;
    }
    !(duration_ms < threshold_ms as i64)
}

/// The upstream path of a model action: only `:generateContent` is
/// forwarded, to `/v1beta/models/{rest}`.
pub fn generate_content_target(rest: &str) -> (r: Option<String>)
    ensures
        match r {
            Some(p) => ends_with(rest@, ":generateContent"@) && p@ == "/v1beta/models/"@ + rest@,
            None => !ends_with(rest@, ":generateContent"@),
        },
{
    if !ends_with_str(rest, ":generateContent") {
        return None;
    }
    Some(concat("/v1beta/models/", rest))
}

/// The processing time of a response without its upload time (never
/// below the `i64` range).
pub fn response_process_ms(total_ms: i64, upload_ms: i64) -> (r: i64)
    ensures
        r == (if total_ms - upload_ms < i64::MIN {
            i64::MIN
        } else if total_ms - upload_ms > i64::MAX {
            i64::MAX
        } else {
            (total_ms - upload_ms) as i64
        }),
{
    let d = total_ms as i128 - upload_ms as i128;
    if d < i64::MIN as i128 {
        i64::MIN
    } else if d > i64::MAX as i128 {
        i64::MAX
    } else {
        d as i64
    }
}

} // verus!
