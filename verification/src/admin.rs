//! The admin log: request entries, running statistics, the sanitizing of
//! JSON bodies before they are kept (inline base64 payloads replaced by
//! their length, image URLs collected) and the Basic-Auth check.
use vstd::prelude::*;
use std::collections::VecDeque;

use vstd::utf8::{decode_utf8, encode_utf8, valid_utf8};

use crate::codec::{base64_decode, base64_standard_decoding, utf8_decode, utf8_lossy, utf8_lossy_text};
use crate::json::{as_array, as_str, clone_fields, field_get, field_insert, fields_get, fields_get_str, fields_insert, get, lemma_model_fields_all, lemma_model_fields_ext, lemma_model_seq_all, lemma_model_seq_ext, member_str, model_fields, model_seq, Json, JsonValue};
use crate::json_text::{json_bytes_parse_outcome, json_pretty_text, parse_json_bytes, to_json_pretty};
use crate::response_rewrite::{char_utf8_len, utf8_len, utf8_len_exec};
use crate::text::{chars_of, concat, decimal, own, slice_range, split_once, split_once_vec, starts_with, starts_with_str, starts_with_vec, str_eq, string_of, strs_view, trim, trim_str, trim_vec, u64_to_decimal};

verus! {

/// The most bytes of a body that one log entry keeps.
pub const ADMIN_MAX_BODY_BYTES_PER_ENTRY: usize = 65536;

/// The most entries the log keeps.
pub const ADMIN_LOG_CAPACITY: usize = 100;

/// A body as the log keeps it: its (pretty, truncated) text and the image
/// URLs it references.
#[derive(Clone, Debug, PartialEq, Eq)]
pub struct SanitizedAdminLog {
    pub pretty: String,
    pub image_urls: Vec<String>,
}

pub open spec fn sanitized_view(s: SanitizedAdminLog) -> (Seq<char>, Seq<Seq<char>>) {
    (s.pretty@, strs_view(s.image_urls@))
}

// ---------------------------------------------------------------------
// Image URLs and truncation
// ---------------------------------------------------------------------
pub open spec fn spec_is_image_url(s: Seq<char>) -> bool {
    starts_with(s, "http://"@) || starts_with(s, "https://"@) || starts_with(s, "/proxy/image"@)
}

/// An absolute HTTP(S) URL or a path of the proxy's image route.
pub fn is_image_url(value: &str) -> (r: bool)
    ensures
        r == spec_is_image_url(value@),
{
    starts_with_str(value, "http://") || starts_with_str(value, "https://") || starts_with_str(
        value,
        "/proxy/image",
    )
}

pub open spec fn TRUNCATED_SUFFIX() -> Seq<char> {
    "\n...[truncated]"@
}

/// `k` characters are kept: the last character that starts at or before
/// byte `max` is the one at `k` (the cut stays on a character boundary).
pub open spec fn truncation_point(s: Seq<char>, max: nat, k: int) -> bool {
    &&& 0 <= k < s.len()
    &&& utf8_len(s.take(k)) <= max
    &&& (k + 1 == s.len() || utf8_len(s.take(k + 1)) > max)
}

/// The text the log keeps of `s` when at most `max` bytes may stay.
pub open spec fn spec_truncated(s: Seq<char>, max: nat) -> Seq<char> {
    if utf8_len(s) <= max {
        s
    } else {
        s.take(choose|k: int| truncation_point(s, max, k)) + TRUNCATED_SUFFIX()
    }
}

pub proof fn lemma_utf8_len_prefix_step(s: Seq<char>, k: int)
    requires
        0 <= k < s.len(),
    ensures
        utf8_len(s.take(k + 1)) == utf8_len(s.take(k)) + char_utf8_len(s[k]),
{
    assert(s.take(k + 1).drop_last() =~= s.take(k));
}

pub proof fn lemma_utf8_len_prefix_monotone(s: Seq<char>, i: int, j: int)
    requires
        0 <= i <= j <= s.len(),
    ensures
        utf8_len(s.take(i)) <= utf8_len(s.take(j)),
    decreases j - i,
{
    if i < j {
        lemma_utf8_len_prefix_step(s, j - 1);
        lemma_utf8_len_prefix_monotone(s, i, j - 1);
    }
}

/// There is one truncation point.
pub proof fn lemma_truncation_point_unique(s: Seq<char>, max: nat, k1: int, k2: int)
    requires
        truncation_point(s, max, k1),
        truncation_point(s, max, k2),
    ensures
        k1 == k2,
{
    if k1 < k2 {
        lemma_utf8_len_prefix_monotone(s, k1 + 1, k2);
    } else if k2 < k1 {
        lemma_utf8_len_prefix_monotone(s, k2 + 1, k1);
    }
}

/// Cuts a text to at most `max_bytes` bytes (at a character boundary) and
/// marks the cut.
pub fn truncate_for_admin_log(input: &str, max_bytes: usize) -> (r: String)
    ensures
        r@ == spec_truncated(input@, max_bytes as nat),
{
    let total = utf8_len_exec(input);
    if total <= max_bytes as u128 {
        return own(input);
    }
    let v = chars_of(input);
    assert(v@.take(0) =~= Seq::<char>::empty());
    let mut k: usize = 0;
    let mut acc: u128 = 0;
    while k + 1 < v.len() && acc + char_len(v[k]) <= max_bytes as u128
        invariant
            v@ == input@,
            utf8_len(v@) > max_bytes,
            0 <= k < v.len(),
            acc == utf8_len(v@.take(k as int)),
            acc <= max_bytes,
        decreases v.len() - k,
    {
        proof {
            lemma_utf8_len_prefix_step(v@, k as int);
        }
        acc = acc + char_len(v[k]);
        k += 1;
    }
    proof {
        lemma_utf8_len_prefix_step(v@, k as int);
        assert(v.len() > 0) by {
            if v.len() == 0 {
                assert(v@ =~= v@.take(0));
            }
        }
        assert(truncation_point(input@, max_bytes as nat, k as int));
        let c = choose|j: int| truncation_point(input@, max_bytes as nat, j);
        lemma_truncation_point_unique(input@, max_bytes as nat, c, k as int);
    }
    let kept = slice_range(&v, 0, k);
    assert(kept@ =~= input@.take(k as int));
    let head = string_of(&kept);
    concat(head.as_str(), "\n...[truncated]")
}

fn char_len(c: char) -> (r: u128)
    ensures
        r == char_utf8_len(c),
{
    let u = c as u32;
    if u < 0x80 {
        1
    } else if u < 0x800 {
        2
    } else if u < 0x10000 {
        3
    } else {
        4
    }
}

// ---------------------------------------------------------------------
// Finish reason
// ---------------------------------------------------------------------
pub open spec fn spec_finish_reason(body: Json) -> Option<Seq<char>> {
    match as_array(get(body, "candidates"@)) {
        Some(cs) => if cs.len() > 0 {
            as_str(get(cs[0], "finishReason"@))
        } else {
            None
        },
        None => None,
    }
}

/// The `finishReason` of the first candidate.
pub fn extract_finish_reason(body: &JsonValue) -> (r: Option<String>)
    ensures
        match r {
            Some(s) => spec_finish_reason(body@) == Some(s@),
            None => spec_finish_reason(body@) is None,
        },
{
    match body.get("candidates") {
        Some(JsonValue::Array(items)) => {
            if items.len() == 0 {
                return None;
            }
            proof {
                lemma_model_seq_all(items@);
            }
            match items[0].get_str("finishReason") {
                Some(s) => Some(s.clone()),
                None => None,
            }
        },
        _ => None,
    }
}

// ---------------------------------------------------------------------
// Redacting inline payloads
// ---------------------------------------------------------------------
/// What replaces an inline payload: its length in bytes.
pub open spec fn omitted_text(d: Seq<char>) -> Seq<char> {
    "[base64 omitted len="@ + decimal((encode_utf8(d).len() as usize) as nat) + "]"@
}

/// The `data` string of the object that `key` names.
pub open spec fn inline_data_of(fs: Seq<(Seq<char>, Json)>, key: Seq<char>) -> Option<Seq<char>> {
    match field_get(fs, key) {
        Some(Json::Object(inner)) => member_str(inner, "data"@),
        _ => None,
    }
}

/// The object under `key` with a non-URL, non-blank `data` replaced by
/// `omitted_text`.
#[verifier::opaque]
pub open spec fn edit_member(fs: Seq<(Seq<char>, Json)>, key: Seq<char>) -> Seq<(Seq<char>, Json)> {
    match field_get(fs, key) {
        Some(Json::Object(inner)) => match member_str(inner, "data"@) {
            Some(d) => if !spec_is_image_url(d) && trim(d).len() > 0 {
                field_insert(
                    fs,
                    key,
                    Json::Object(field_insert(inner, "data"@, Json::Str(omitted_text(d)))),
                )
            } else {
                fs
            },
            None => fs,
        },
        _ => fs,
    }
}

/// The image URL (trimmed) that the object under `key` holds as `data`.
#[verifier::opaque]
pub open spec fn member_url(fs: Seq<(Seq<char>, Json)>, key: Seq<char>) -> Seq<Seq<char>> {
    match inline_data_of(fs, key) {
        Some(d) => if spec_is_image_url(d) {
            seq![trim(d)]
        } else {
            Seq::empty()
        },
        None => Seq::empty(),
    }
}

/// A document with every inline payload (under `inlineData` or
/// `inline_data`, at any depth) replaced by its length.
pub open spec fn redact(v: Json) -> Json
    decreases v,
{
    match v {
        Json::Object(fs) => Json::Object(
            edit_member(edit_member(redact_fields(fs), "inlineData"@), "inline_data"@),
        ),
        Json::Array(items) => Json::Array(redact_items(items)),
        _ => v,
    }
}

pub open spec fn redact_fields(fs: Seq<(Seq<char>, Json)>) -> Seq<(Seq<char>, Json)>
    decreases fs,
{
    if fs.len() == 0 {
        Seq::empty()
    } else {
        redact_fields(fs.subrange(0, fs.len() - 1)).push(
            (fs[fs.len() - 1].0, redact(fs[fs.len() - 1].1)),
        )
    }
}

pub open spec fn redact_items(items: Seq<Json>) -> Seq<Json>
    decreases items,
{
    if items.len() == 0 {
        Seq::empty()
    } else {
        redact_items(items.subrange(0, items.len() - 1)).push(redact(items[items.len() - 1]))
    }
}

/// The image URLs held as inline `data` in a document, in document order
/// (an object's own before its members'), repeats included.
pub open spec fn image_urls_in(v: Json) -> Seq<Seq<char>>
    decreases v,
{
    match v {
        Json::Object(fs) => member_url(fs, "inlineData"@) + member_url(fs, "inline_data"@)
            + image_urls_in_fields(fs),
        Json::Array(items) => image_urls_in_items(items),
        _ => Seq::empty(),
    }
}

pub open spec fn image_urls_in_fields(fs: Seq<(Seq<char>, Json)>) -> Seq<Seq<char>>
    decreases fs,
{
    if fs.len() == 0 {
        Seq::empty()
    } else {
        image_urls_in_fields(fs.subrange(0, fs.len() - 1)) + image_urls_in(fs[fs.len() - 1].1)
    }
}

pub open spec fn image_urls_in_items(items: Seq<Json>) -> Seq<Seq<char>>
    decreases items,
{
    if items.len() == 0 {
        Seq::empty()
    } else {
        image_urls_in_items(items.subrange(0, items.len() - 1)) + image_urls_in(
            items[items.len() - 1],
        )
    }
}

/// `acc` followed by the members of `s` it does not hold yet, in order.
pub open spec fn add_new(acc: Seq<Seq<char>>, s: Seq<Seq<char>>) -> Seq<Seq<char>>
    decreases s.len(),
{
    if s.len() == 0 {
        acc
    } else {
        let a = add_new(acc, s.drop_last());
        if a.contains(s.last()) {
            a
        } else {
            a.push(s.last())
        }
    }
}

/// Everything in `acc` and in `s` is in `add_new(acc, s)`.
pub proof fn lemma_add_new_contains(acc: Seq<Seq<char>>, s: Seq<Seq<char>>)
    ensures
        forall|x: Seq<char>| #[trigger] acc.contains(x) ==> add_new(acc, s).contains(x),
        forall|i: int| 0 <= i < s.len() ==> add_new(acc, s).contains(#[trigger] s[i]),
    decreases s.len(),
{
    if s.len() > 0 {
        lemma_add_new_contains(acc, s.drop_last());
        let a = add_new(acc, s.drop_last());
        assert forall|i: int| 0 <= i < s.len() implies add_new(acc, s).contains(#[trigger] s[i]) by {
            if i < s.len() - 1 {
                assert(s.drop_last()[i] == s[i]);
                assert(a.contains(s[i]));
            }
            if !a.contains(s.last()) {
                assert(a.push(s.last())[a.len() as int] == s.last());
            }
            if a.contains(s[i]) && !a.contains(s.last()) {
                let j = choose|j: int| 0 <= j < a.len() && a[j] == s[i];
                assert(a.push(s.last())[j] == s[i]);
            }
        }
        assert forall|x: Seq<char>| #[trigger] acc.contains(x) implies add_new(acc, s).contains(x) by {
            assert(a.contains(x));
            if !a.contains(s.last()) {
                let j = choose|j: int| 0 <= j < a.len() && a[j] == x;
                assert(a.push(s.last())[j] == x);
            }
        }
    }
}

proof fn lemma_add_new_concat(acc: Seq<Seq<char>>, a: Seq<Seq<char>>, b: Seq<Seq<char>>)
    ensures
        add_new(acc, a + b) == add_new(add_new(acc, a), b),
    decreases b.len(),
{
    if b.len() == 0 {
        assert(a + b =~= a);
    } else {
        assert((a + b).drop_last() =~= a + b.drop_last());
        assert((a + b).last() == b.last());
        lemma_add_new_concat(acc, a, b.drop_last());
    }
}

/// Adds a URL unless the list already holds it.
pub(crate) fn push_new(urls: &mut Vec<String>, u: String)
    ensures
        strs_view(final(urls)@) == add_new(strs_view(old(urls)@), seq![u@]),
{
    let ghost before = strs_view(urls@);
    let ghost uu = u@;
    proof {
        assert(seq![uu].drop_last() =~= Seq::<Seq<char>>::empty());
        assert(seq![uu].last() == uu);
        assert(add_new(before, Seq::<Seq<char>>::empty()) == before);
    }
    let mut i: usize = 0;
    while i < urls.len()
        invariant
            0 <= i <= urls.len(),
            before == strs_view(urls@),
            uu == u@,
            forall|k: int| 0 <= k < i ==> #[trigger] before[k] != u@,
        decreases urls.len() - i,
    {
        if str_eq(urls[i].as_str(), u.as_str()) {
            proof {
                assert(before[i as int] == uu);
                assert(before.contains(uu));
                assert(seq![uu].drop_last() =~= Seq::<Seq<char>>::empty());
                assert(seq![uu].last() == uu);
                assert(add_new(before, Seq::<Seq<char>>::empty()) == before);
                assert(add_new(before, seq![uu]) == before);
            }
            return;
        }
        i += 1;
    }
    let ghost u0 = u@;
    urls.push(u);
    proof {
        assert(!before.contains(u0));
        assert(add_new(before, seq![u0]) == before.push(u0));
        assert(strs_view(urls@) =~= before.push(u0));
    }
}

/// Adds the image URL of the object under `key`.
#[verifier::rlimit(100)]
#[verifier::spinoff_prover]
fn collect_member_url(fields: &Vec<(String, JsonValue)>, key: &str, urls: &mut Vec<String>)
    ensures
        strs_view(final(urls)@) == add_new(strs_view(old(urls)@), member_url(model_fields(fields@), key@)),
{
    let ghost u0 = strs_view(urls@);
    reveal(member_url);
    match fields_get(fields, key) {
        Some(JsonValue::Object(inner)) => match fields_get_str(inner, "data") {
            Some(d) => {
                if is_image_url(d.as_str()) {
                    let t = trim_str(d.as_str());
                    push_new(urls, t);
                    return;
                }
            },
            None => {},
        },
        _ => {},
    }
    proof {
        assert(member_url(model_fields(fields@), key@) =~= Seq::<Seq<char>>::empty());
    }
}

fn omitted_text_exec(d: &str) -> (r: String)
    ensures
        r@ == omitted_text(d@),
{
    let n = d.len();
    let digits = u64_to_decimal(n as u64);
    let a = concat("[base64 omitted len=", digits.as_str());
    concat(a.as_str(), "]")
}

/// Applies `edit_member` to the members.
#[verifier::rlimit(100)]
#[verifier::spinoff_prover]
fn edit_member_exec(fields: &mut Vec<(String, JsonValue)>, key: &str)
    ensures
        model_fields(final(fields)@) == edit_member(model_fields(old(fields)@), key@),
{
    reveal(edit_member);
    let mut edited: Option<Vec<(String, JsonValue)>> = None;
    match fields_get(fields, key) {
        Some(JsonValue::Object(inner)) => {
            match fields_get_str(inner, "data") {
                Some(d) => {
                    if !is_image_url(d.as_str()) {
                        let t = trim_str(d.as_str());
                        if !t.as_str().is_empty() {
                            let mut inner2 = clone_fields(inner);
                            fields_insert(
                                &mut inner2,
                                own("data"),
                                JsonValue::Str(omitted_text_exec(d.as_str())),
                            );
                            edited = Some(inner2);
                        }
                    }
                },
                None => {},
            }
        },
        _ => {},
    }
    match edited {
        Some(inner2) => {
            fields_insert(fields, own(key), JsonValue::Object(inner2));
        },
        None => {},
    }
}

/// Rebuilds a document with its inline payloads redacted, adding the image
/// URLs it holds (in document order) to `urls`.
#[verifier::loop_isolation(false)]
#[verifier::rlimit(100)]
#[verifier::spinoff_prover]
fn redact_value(v: &JsonValue, urls: &mut Vec<String>) -> (r: JsonValue)
    ensures
        r@ == redact(v@),
        strs_view(final(urls)@) == add_new(strs_view(old(urls)@), image_urls_in(v@)),
    decreases *v,
{
    let ghost u0 = strs_view(urls@);
    match v {
        JsonValue::Object(fields) => {
            let ghost mf = model_fields(fields@);
            proof {
                lemma_model_fields_all(fields@);
            }
            collect_member_url(fields, "inlineData", urls);
            collect_member_url(fields, "inline_data", urls);
            let ghost own = member_url(mf, "inlineData"@) + member_url(mf, "inline_data"@);
            proof {
                lemma_add_new_concat(u0, member_url(mf, "inlineData"@), member_url(mf, "inline_data"@));
            }
            let ghost u1 = strs_view(urls@);
            assert(u1 == add_new(u0, own));
            let mut out: Vec<(String, JsonValue)> = Vec::new();
            let mut i: usize = 0;
            proof {
                assert(mf.subrange(0, 0) =~= Seq::<(Seq<char>, Json)>::empty());
                lemma_model_fields_ext(out@, Seq::empty());
            }
            while i < fields.len()
                invariant
                    0 <= i <= fields.len(),
                    out@.len() == i,
                    model_fields(out@) == redact_fields(mf.subrange(0, i as int)),
                    strs_view(urls@) == add_new(u1, image_urls_in_fields(mf.subrange(0, i as int))),
                decreases fields.len() - i,
            {
                proof {
                    assert(decreases_to!(*v => fields@[i as int].1));
                    let sub = mf.subrange(0, i + 1);
                    assert(sub.subrange(0, sub.len() - 1) =~= mf.subrange(0, i as int));
                    assert(sub[sub.len() - 1] == mf[i as int]);
                }
                let child = redact_value(&fields[i].1, urls);
                let ghost before = out@;
                out.push((fields[i].0.clone(), child));
                proof {
                    lemma_model_fields_all(before);
                    lemma_model_fields_ext(out@, redact_fields(mf.subrange(0, i + 1)));
                    lemma_add_new_concat(
                        u1,
                        image_urls_in_fields(mf.subrange(0, i as int)),
                        image_urls_in(mf[i as int].1),
                    );
                }
                i += 1;
            }
            proof {
                assert(mf.subrange(0, fields@.len() as int) =~= mf);
                lemma_add_new_concat(u0, own, image_urls_in_fields(mf));
            }
            edit_member_exec(&mut out, "inlineData");
            edit_member_exec(&mut out, "inline_data");
            JsonValue::Object(out)
        },
        JsonValue::Array(items) => {
            let ghost ms = model_seq(items@);
            proof {
                lemma_model_seq_all(items@);
            }
            let mut out: Vec<JsonValue> = Vec::new();
            let mut i: usize = 0;
            proof {
                assert(ms.subrange(0, 0) =~= Seq::<Json>::empty());
                lemma_model_seq_ext(out@, Seq::empty());
            }
            while i < items.len()
                invariant
                    0 <= i <= items.len(),
                    out@.len() == i,
                    model_seq(out@) == redact_items(ms.subrange(0, i as int)),
                    strs_view(urls@) == add_new(u0, image_urls_in_items(ms.subrange(0, i as int))),
                decreases items.len() - i,
            {
                proof {
                    assert(decreases_to!(*v => items@[i as int]));
                    let sub = ms.subrange(0, i + 1);
                    assert(sub.subrange(0, sub.len() - 1) =~= ms.subrange(0, i as int));
                    assert(sub[sub.len() - 1] == ms[i as int]);
                }
                let child = redact_value(&items[i], urls);
                let ghost before = out@;
                out.push(child);
                proof {
                    lemma_model_seq_all(before);
                    lemma_model_seq_ext(out@, redact_items(ms.subrange(0, i + 1)));
                    lemma_add_new_concat(
                        u0,
                        image_urls_in_items(ms.subrange(0, i as int)),
                        image_urls_in(ms[i as int]),
                    );
                }
                i += 1;
            }
            proof {
                assert(ms.subrange(0, items@.len() as int) =~= ms);
            }
            JsonValue::Array(out)
        },
        _ => {
            proof {
                assert(image_urls_in(v@) =~= Seq::<Seq<char>>::empty());
            }
            v.deep_clone()
        },
    }
}

/// Redacts the inline payloads of a document and returns the image URLs it
/// holds, in document order, each once.
pub fn redact_inline_data_and_collect_image_urls(root: &mut JsonValue) -> (r: Vec<String>)
    ensures
        final(root)@ == redact(old(root)@),
        strs_view(r@) == add_new(Seq::empty(), image_urls_in(old(root)@)),
{
    let mut urls: Vec<String> = Vec::new();
    assert(strs_view(urls@) =~= Seq::<Seq<char>>::empty());
    let redacted = redact_value(root, &mut urls);
    *root = redacted;
    urls
}

// ---------------------------------------------------------------------
// Sanitizing bodies
// ---------------------------------------------------------------------
/// What the log keeps of a body: empty for an empty body; the (truncated)
/// text for a body that is not JSON; else the redacted document, pretty
/// and truncated, with its image URLs in document order, each once.
pub open spec fn is_sanitized_log(raw: Seq<u8>, s: SanitizedAdminLog) -> bool {
    let max = ADMIN_MAX_BODY_BYTES_PER_ENTRY as nat;
    if raw.len() == 0 {
        s.pretty@ == Seq::<char>::empty() && s.image_urls@.len() == 0
    } else {
        match json_bytes_parse_outcome(raw) {
            Err(_) => s.pretty@ == spec_truncated(utf8_lossy_text(raw), max) && s.image_urls@.len()
                == 0,
            Ok(root) => {
                &&& s.pretty@ == spec_truncated(json_pretty_text(redact(root)), max)
                &&& strs_view(s.image_urls@) == add_new(Seq::empty(), image_urls_in(root))
            },
        }
    }
}

/// A body as the admin log keeps it.
pub fn sanitize_json_for_log(raw: &[u8]) -> (r: SanitizedAdminLog)
    ensures
        is_sanitized_log(raw@, r),
{
    if raw.len() == 0 {
        return SanitizedAdminLog { pretty: String::new(), image_urls: Vec::new() };
    }
    match parse_json_bytes(raw) {
        Err(_) => {
            let text = utf8_lossy(raw);
            SanitizedAdminLog {
                pretty: truncate_for_admin_log(text.as_str(), ADMIN_MAX_BODY_BYTES_PER_ENTRY),
                image_urls: Vec::new(),
            }
        },
        Ok(root) => {
            let mut root = root;
            let image_urls = redact_inline_data_and_collect_image_urls(&mut root);
            let text = to_json_pretty(&root);
            SanitizedAdminLog {
                pretty: truncate_for_admin_log(text.as_str(), ADMIN_MAX_BODY_BYTES_PER_ENTRY),
                image_urls,
            }
        },
    }
}

/// `sanitize_json_for_log` when the admin log is enabled; nothing when it
/// is not.
pub fn maybe_sanitize_json_for_log(raw: &[u8], enabled: bool) -> (r: Option<SanitizedAdminLog>)
    ensures
        match r {
            Some(s) => enabled && is_sanitized_log(raw@, s),
            None => !enabled,
        },
{
    if enabled {
        Some(sanitize_json_for_log(raw))
    } else {
        None
    }
}

// ---------------------------------------------------------------------
// Entries and statistics
// ---------------------------------------------------------------------
/// One request as the admin log records it.
#[derive(Clone, Debug)]
pub struct AdminLogEntry {
    pub id: i64,
    pub created_at: String,
    pub method: String,
    pub path: String,
    pub query: String,
    pub remote_addr: String,
    pub is_stream: bool,
    pub output_mode: String,
    pub status_code: u16,
    pub duration_ms: i64,
    pub finish_reason: String,
    pub request_raw: String,
    pub request_raw_images: Vec<String>,
    pub request_raw_image_cache_hits: Vec<String>,
    pub request_upstream: String,
    pub request_upstream_images: Vec<String>,
    pub response_downstream: String,
    pub response_images: Vec<String>,
    pub error_source: String,
    pub error_stage: String,
    pub error_kind: String,
    pub error_message: String,
    pub error_detail: String,
    pub upstream_status_code: u16,
    pub upstream_error_body: String,
    pub request_parse_ms: i64,
    pub upstream_build_ms: i64,
    pub request_image_prepare_ms: i64,
    pub request_image_materialize_ms: i64,
    pub request_image_fetch_work_ms: i64,
    pub request_image_store_work_ms: i64,
    pub request_encode_ms: i64,
    pub response_process_ms: i64,
    pub upload_ms: i64,
}

/// An entry with every text and list empty and every number zero.
pub open spec fn is_blank_entry(e: AdminLogEntry) -> bool {
    &&& e.id == 0 && e.status_code == 0 && e.duration_ms == 0 && !e.is_stream
    &&& e.upstream_status_code == 0
    &&& e.created_at@.len() == 0 && e.method@.len() == 0 && e.path@.len() == 0
    &&& e.query@.len() == 0 && e.remote_addr@.len() == 0 && e.output_mode@.len() == 0
    &&& e.finish_reason@.len() == 0 && e.request_raw@.len() == 0
    &&& e.request_raw_images@.len() == 0 && e.request_raw_image_cache_hits@.len() == 0
    &&& e.request_upstream@.len() == 0 && e.request_upstream_images@.len() == 0
    &&& e.response_downstream@.len() == 0 && e.response_images@.len() == 0
    &&& e.error_source@.len() == 0 && e.error_stage@.len() == 0 && e.error_kind@.len() == 0
    &&& e.error_message@.len() == 0 && e.error_detail@.len() == 0
    &&& e.upstream_error_body@.len() == 0
    &&& e.request_parse_ms == 0 && e.upstream_build_ms == 0 && e.request_image_prepare_ms == 0
    &&& e.request_image_materialize_ms == 0 && e.request_image_fetch_work_ms == 0
    &&& e.request_image_store_work_ms == 0 && e.request_encode_ms == 0
    &&& e.response_process_ms == 0 && e.upload_ms == 0
}

impl Default for AdminLogEntry {
    fn default() -> (r: AdminLogEntry)
        ensures
            is_blank_entry(r),
    {
        AdminLogEntry {
            id: 0,
            created_at: String::new(),
            method: String::new(),
            path: String::new(),
            query: String::new(),
            remote_addr: String::new(),
            is_stream: false,
            output_mode: String::new(),
            status_code: 0,
            duration_ms: 0,
            finish_reason: String::new(),
            request_raw: String::new(),
            request_raw_images: Vec::new(),
            request_raw_image_cache_hits: Vec::new(),
            request_upstream: String::new(),
            request_upstream_images: Vec::new(),
            response_downstream: String::new(),
            response_images: Vec::new(),
            error_source: String::new(),
            error_stage: String::new(),
            error_kind: String::new(),
            error_message: String::new(),
            error_detail: String::new(),
            upstream_status_code: 0,
            upstream_error_body: String::new(),
            request_parse_ms: 0,
            upstream_build_ms: 0,
            request_image_prepare_ms: 0,
            request_image_materialize_ms: 0,
            request_image_fetch_work_ms: 0,
            request_image_store_work_ms: 0,
            request_encode_ms: 0,
            response_process_ms: 0,
            upload_ms: 0,
        }
    }
}

/// Running totals over the recorded requests.
#[derive(Clone, Copy, Debug, Default, PartialEq, Eq, Structural)]
pub struct AdminStats {
    pub total_requests: i64,
    pub error_requests: i64,
    pub total_duration_ms: i64,
    pub cache_hits: i64,
}

/// `a + b` as a two's complement counter adds (it wraps).
pub open spec fn wrap_add(a: i64, b: i64) -> i64 {
    let s = a + b;
    if s > i64::MAX {
        (s - 0x1_0000_0000_0000_0000) as i64
    } else if s < i64::MIN {
        (s + 0x1_0000_0000_0000_0000) as i64
    } else {
        s as i64
    }
}

fn wrapping_add_i64(a: i64, b: i64) -> (r: i64)
    ensures
        r == wrap_add(a, b),
{
    let s = a as i128 + b as i128;
    if s > i64::MAX as i128 {
        (s - 0x1_0000_0000_0000_0000i128) as i64
    } else if s < i64::MIN as i128 {
        (s + 0x1_0000_0000_0000_0000i128) as i64
    } else {
        s as i64
    }
}

/// Whether a recorded status counts as an error (4xx or 5xx).
pub open spec fn is_error_status(code: u16) -> bool {
    code >= 400
}

/// The totals after one more request.
pub open spec fn stats_after(s: AdminStats, e: AdminLogEntry) -> AdminStats {
    AdminStats {
        total_requests: wrap_add(s.total_requests, 1),
        error_requests: if is_error_status(e.status_code) {
            wrap_add(s.error_requests, 1)
        } else {
            s.error_requests
        },
        total_duration_ms: wrap_add(s.total_duration_ms, e.duration_ms),
        cache_hits: s.cache_hits,
    }
}

impl AdminStats {
    pub fn new() -> (r: AdminStats)
        ensures
            r == (AdminStats {
                total_requests: 0,
                error_requests: 0,
                total_duration_ms: 0,
                cache_hits: 0,
            }),
    {
        AdminStats { total_requests: 0, error_requests: 0, total_duration_ms: 0, cache_hits: 0 }
    }

    /// Counts one image served from a cache.
    pub fn record_cache_hit(&mut self)
        ensures
            *final(self) == (AdminStats {
                cache_hits: wrap_add(old(self).cache_hits, 1),
                ..*old(self)
            }),
    {
        self.cache_hits = wrapping_add_i64(self.cache_hits, 1);
    }
}

/// Adds a finished request to the totals.
pub fn apply_admin_stats(stats: &mut AdminStats, entry: &AdminLogEntry)
    ensures
        *final(stats) == stats_after(*old(stats), *entry),
{
    stats.total_requests = wrapping_add_i64(stats.total_requests, 1);
    if entry.status_code >= 400 {
        stats.error_requests = wrapping_add_i64(stats.error_requests, 1);
    }
    stats.total_duration_ms = wrapping_add_i64(stats.total_duration_ms, entry.duration_ms);
}

// ---------------------------------------------------------------------
// The admin state
// ---------------------------------------------------------------------
/// The admin password, the log (newest first, at most
/// `ADMIN_LOG_CAPACITY` entries) and the totals.
pub struct AdminState {
    password: String,
    next_id: i64,
    entries: VecDeque<AdminLogEntry>,
    stats: AdminStats,
}

/// The id after `id` (a counter that wraps).
pub open spec fn next_log_id(id: i64) -> i64 {
    wrap_add(id, 1)
}

/// The log after recording `e` with id `id`: it goes first, and the oldest
/// entries beyond the capacity are dropped.
pub open spec fn log_after(entries: Seq<AdminLogEntry>, e: AdminLogEntry, id: i64) -> Seq<AdminLogEntry> {
    let all = seq![AdminLogEntry { id: id, ..e }] + entries;
    if all.len() > ADMIN_LOG_CAPACITY {
        all.take(ADMIN_LOG_CAPACITY as int)
    } else {
        all
    }
}

/// A `Basic` authorization header whose password (after the first `:` of
/// the decoded credentials) is the admin password; never when the admin
/// password is blank.
pub open spec fn spec_basic_auth(password: Seq<char>, header: Option<Seq<char>>) -> bool {
    &&& trim(password).len() > 0
    &&& header matches Some(h)
    &&& starts_with(h, "Basic "@)
    &&& base64_standard_decoding(trim(h.subrange(6, h.len() as int))) matches Ok(bytes)
    &&& valid_utf8(bytes)
    &&& split_once(decode_utf8(bytes), ':') matches Some(parts)
    &&& parts.1 == password
}

impl AdminState {
    pub closed spec fn password_view(&self) -> Seq<char> {
        self.password@
    }

    pub closed spec fn last_id(&self) -> i64 {
        self.next_id
    }

    pub closed spec fn log_view(&self) -> Seq<AdminLogEntry> {
        self.entries@
    }

    pub closed spec fn stats_view(&self) -> AdminStats {
        self.stats
    }

    pub fn new(password: String) -> (r: AdminState)
        ensures
            r.password_view() == password@,
            r.last_id() == 0,
            r.log_view().len() == 0,
            r.stats_view() == (AdminStats {
                total_requests: 0,
                error_requests: 0,
                total_duration_ms: 0,
                cache_hits: 0,
            }),
    {
        AdminState { password, next_id: 0, entries: VecDeque::new(), stats: AdminStats::new() }
    }

    /// Whether the admin routes are on (the password is not blank).
    pub fn enabled(&self) -> (r: bool)
        ensures
            r == (trim(self.password_view()).len() > 0),
    {
        let t = trim_str(self.password.as_str());
        !t.as_str().is_empty()
    }

    /// Records an entry under the next id.
    pub fn record(&mut self, entry: AdminLogEntry)
        ensures
            final(self).last_id() == next_log_id(old(self).last_id()),
            final(self).log_view() == log_after(
                old(self).log_view(),
                entry,
                next_log_id(old(self).last_id()),
            ),
            final(self).password_view() == old(self).password_view(),
            final(self).stats_view() == old(self).stats_view(),
    {
        let id = wrapping_add_i64(self.next_id, 1);
        self.next_id = id;
        let mut entry = entry;
        entry.id = id;
        let ghost e = entry;
        let ghost before = self.entries@;
        self.entries.push_front(entry);
        let ghost all = seq![e] + before;
        assert(self.entries@ =~= all.take(all.len() as int));
        while self.entries.len() > ADMIN_LOG_CAPACITY
            invariant
                self.entries@.len() <= all.len(),
                self.entries@ == all.take(self.entries@.len() as int),
                all.len() > ADMIN_LOG_CAPACITY ==> self.entries@.len() >= ADMIN_LOG_CAPACITY,
                all.len() <= ADMIN_LOG_CAPACITY ==> self.entries@.len() == all.len(),
                self.password == old(self).password,
                self.stats == old(self).stats,
                self.next_id == id,
            decreases self.entries@.len(),
        {
            let _ = self.entries.pop_back();
            assert(self.entries@ =~= all.take(self.entries@.len() as int));
        }
    }

    /// The totals.
    pub fn stats(&self) -> (r: AdminStats)
        ensures
            r == self.stats_view(),
    {
        self.stats
    }

    /// Adds a finished request to the totals.
    pub fn apply_stats(&mut self, entry: &AdminLogEntry)
        ensures
            final(self).stats_view() == stats_after(old(self).stats_view(), *entry),
            final(self).log_view() == old(self).log_view(),
            final(self).last_id() == old(self).last_id(),
            final(self).password_view() == old(self).password_view(),
    {
        apply_admin_stats(&mut self.stats, entry);
    }

    /// Counts one image served from a cache.
    pub fn record_cache_hit(&mut self)
        ensures
            final(self).stats_view() == (AdminStats {
                cache_hits: wrap_add(old(self).stats_view().cache_hits, 1),
                ..old(self).stats_view()
            }),
            final(self).log_view() == old(self).log_view(),
            final(self).last_id() == old(self).last_id(),
            final(self).password_view() == old(self).password_view(),
    {
        self.stats.record_cache_hit();
    }

    /// The log, newest entry first.
    pub fn snapshot_logs(&self) -> (r: &VecDeque<AdminLogEntry>)
        ensures
            r@ == self.log_view(),
    {
        &self.entries
    }

    /// Checks an `Authorization` header (absent, or not text, is `None`)
    /// against the admin password.
    pub fn check_basic_auth(&self, authorization: Option<&str>) -> (r: bool)
        ensures
            r == spec_basic_auth(
                self.password_view(),
                match authorization {
                    Some(h) => Some(h@),
                    None => None,
                },
            ),
    {
        if !self.enabled() {
            return false;
        }
        let raw = match authorization {
            Some(h) => h,
            None => {
                return false;
            },
        };
        let v = chars_of(raw);
        let prefix = chars_of("Basic ");
        proof {
            reveal_strlit("Basic ");
        }
        if !starts_with_vec(&v, &prefix) {
            return false;
        }
        let rest = slice_range(&v, 6, v.len());
        let encoded = trim_vec(&rest);
        let encoded_text = string_of(&encoded);
        let decoded = match base64_decode(encoded_text.as_str()) {
            Ok(b) => b,
            Err(_) => {
                return false;
            },
        };
        let text = match utf8_decode(decoded) {
            Some(t) => t,
            None => {
                return false;
            },
        };
        let tv = chars_of(text.as_str());
        match split_once_vec(&tv, ':') {
            Some((_, password)) => {
                let pw = string_of(&password);
                str_eq(pw.as_str(), self.password.as_str())
            },
            None => false,
        }
    }
}

} // verus!
