//! Gemini responses as the proxy hands them back: thought signatures
//! removed, one image per candidate, Markdown image links turned into
//! inline data, and inline images replaced by uploaded URLs.
use vstd::prelude::*;

use crate::codec::{base64_url_nopad_encode_text, base64_url_nopad_of_text};

use crate::json::{field_index, field_remove, lemma_field_index_none, fields_get_object, fields_get_str, fields_remove, find_field, lemma_model_fields_all, lemma_model_fields_ext, lemma_model_seq_all, lemma_model_seq_ext, member_object, member_str, model, model_fields, model_seq, Json, JsonValue};
use crate::request_scan::is_http_url;
use crate::text::{chars_of, concat, find, find_char, find_char_vec, find_vec, own, slice_range, starts_with, starts_with_vec, string_of, trim, trim_end_char, trim_end_char_vec, trim_vec};

verus! {

#[derive(Clone, Copy, Debug, PartialEq, Eq, Structural)]
pub enum OutputMode {
    Base64,
    Url,
}

/// A URL, or a path of the proxy's own image route.
pub open spec fn is_url_like(s: Seq<char>) -> bool {
    starts_with(s, "http://"@) || starts_with(s, "https://"@) || starts_with(s, "/proxy/image"@)
}

pub fn is_url_like_exec(s: &str) -> (r: bool)
    ensures
        r == is_url_like(s@),
{
    let v = chars_of(s);
    let a = chars_of("http://");
    let b = chars_of("https://");
    let c = chars_of("/proxy/image");
    starts_with_vec(&v, &a) || starts_with_vec(&v, &b) || starts_with_vec(&v, &c)
}

/// Bytes in the UTF-8 encoding of a character.
pub open spec fn char_utf8_len(c: char) -> nat {
    if (c as u32) < 0x80 {
        1
    } else if (c as u32) < 0x800 {
        2
    } else if (c as u32) < 0x10000 {
        3
    } else {
        4
    }
}

/// `str::len`: bytes in the UTF-8 encoding of a text.
pub open spec fn utf8_len(s: Seq<char>) -> nat
    decreases s.len(),
{
    if s.len() == 0 {
        0
    } else {
        utf8_len(s.drop_last()) + char_utf8_len(s.last())
    }
}

pub fn utf8_len_exec(s: &str) -> (r: u128)
    ensures
        r == utf8_len(s@),
{
    let v = chars_of(s);
    let mut total: u128 = 0;
    let mut i: usize = 0;
    while i < v.len()
        invariant
            0 <= i <= v.len(),
            v@ == s@,
            total == utf8_len(v@.subrange(0, i as int)),
            total <= 4 * i,
        decreases v.len() - i,
    {
        let u = v[i] as u32;
        let n: u128 = if u < 0x80 {
            1
        } else if u < 0x800 {
            2
        } else if u < 0x10000 {
            3
        } else {
            4
        };
        proof {
            assert(v@.subrange(0, i + 1).drop_last() =~= v@.subrange(0, i as int));
        }
        total = total + n;
        i += 1;
    }
    assert(v@.subrange(0, v.len() as int) =~= v@);
    total
}

// ---------------------------------------------------------------------
// One image per candidate
// ---------------------------------------------------------------------
/// A part with `inlineData.data` as a string.
pub open spec fn is_inline_image(p: Json) -> bool {
    match p {
        Json::Object(fs) => match member_object(fs, "inlineData"@) {
            Some(inl) => member_str(inl, "data"@) is Some,
            None => false,
        },
        _ => false,
    }
}

/// The payload size of a part that carries image data (not a URL).
pub open spec fn eligible_size(p: Json) -> Option<nat> {
    match p {
        Json::Object(fs) => match member_object(fs, "inlineData"@) {
            Some(inl) => match member_str(inl, "data"@) {
                Some(d) => if is_url_like(d) {
                    None
                } else {
                    Some(utf8_len(d))
                },
                None => None,
            },
            None => None,
        },
        _ => None,
    }
}

/// A part with image data of at least one byte.
pub open spec fn has_payload(p: Json) -> bool {
    match eligible_size(p) {
        Some(s) => s > 0,
        None => false,
    }
}

/// Among the first `n` parts, the first one with the largest payload
/// (larger than zero), and that size.
pub open spec fn best_upto(parts: Seq<Json>, n: nat) -> (Option<int>, nat)
    decreases n,
{
    if n == 0 {
        (None, 0)
    } else {
        let (bi, bs) = best_upto(parts, (n - 1) as nat);
        match eligible_size(parts[n - 1]) {
            Some(sz) => if sz > bs {
                (Some(n - 1), sz)
            } else {
                (bi, bs)
            },
            None => (bi, bs),
        }
    }
}

/// The parts without the inline images other than the one at `b`.
pub open spec fn keep_parts(parts: Seq<Json>, b: int) -> Seq<Json>
    decreases parts.len(),
{
    if parts.len() == 0 {
        Seq::empty()
    } else {
        let prev = keep_parts(parts.drop_last(), b);
        let idx = parts.len() - 1;
        if !is_inline_image(parts[idx]) || idx == b {
            prev.push(parts[idx])
        } else {
            prev
        }
    }
}

/// The parts of one candidate after keeping only the largest image.
#[verifier::opaque]
pub open spec fn keep_in_parts(parts: Seq<Json>) -> Seq<Json> {
    match best_upto(parts, parts.len()).0 {
        Some(b) => keep_parts(parts, b),
        None => parts,
    }
}

/// The content members with `parts` reduced to the largest image.
#[verifier::opaque]
pub open spec fn with_kept_parts(contfs: Seq<(Seq<char>, Json)>) -> Seq<(Seq<char>, Json)> {
    match field_index(contfs, "parts"@) {
        Some(k) => if 0 <= k < contfs.len() {
            match contfs[k].1 {
                Json::Array(parts) => contfs.update(
                    k,
                    (contfs[k].0, Json::Array(keep_in_parts(parts))),
                ),
                _ => contfs,
            }
        } else {
            contfs
        },
        None => contfs,
    }
}

/// The candidate members with `content.parts` reduced to the largest image.
#[verifier::opaque]
pub open spec fn with_kept_content(cfs: Seq<(Seq<char>, Json)>) -> Seq<(Seq<char>, Json)> {
    match field_index(cfs, "content"@) {
        Some(j) => if 0 <= j < cfs.len() {
            match cfs[j].1 {
                Json::Object(contfs) => cfs.update(
                    j,
                    (cfs[j].0, Json::Object(with_kept_parts(contfs))),
                ),
                _ => cfs,
            }
        } else {
            cfs
        },
        None => cfs,
    }
}

#[verifier::opaque]
pub open spec fn keep_in_candidate(c: Json) -> Json {
    match c {
        Json::Object(cfs) => Json::Object(with_kept_content(cfs)),
        _ => c,
    }
}

/// The response members with every candidate reduced to its largest image.
#[verifier::opaque]
pub open spec fn with_kept_candidates(fs: Seq<(Seq<char>, Json)>) -> Seq<(Seq<char>, Json)> {
    match field_index(fs, "candidates"@) {
        Some(i) => if 0 <= i < fs.len() {
            match fs[i].1 {
                Json::Array(cands) => fs.update(
                    i,
                    (fs[i].0, Json::Array(cands.map_values(|c: Json| keep_in_candidate(c)))),
                ),
                _ => fs,
            }
        } else {
            fs
        },
        None => fs,
    }
}

/// `keep_largest_inline_image` on the model.
pub open spec fn keep_largest(body: Json) -> Json {
    match body {
        Json::Object(fs) => Json::Object(with_kept_candidates(fs)),
        _ => body,
    }
}

#[verifier::spinoff_prover]
#[verifier::rlimit(40)]
fn inline_data_str(part: &JsonValue) -> (r: Option<&String>)
    ensures
        match r {
            Some(d) => is_inline_image(part@) && match part@ {
                Json::Object(fs) => match member_object(fs, "inlineData"@) {
                    Some(inl) => member_str(inl, "data"@) == Some(d@),
                    None => false,
                },
                _ => false,
            },
            None => !is_inline_image(part@),
        },
{
    match part {
        JsonValue::Object(fields) => match fields_get_object(fields, "inlineData") {
            Some(inl) => fields_get_str(inl, "data"),
            None => None,
        },
        _ => None,
    }
}

fn eligible_size_exec(part: &JsonValue) -> (r: Option<u128>)
    ensures
        match r {
            Some(s) => eligible_size(part@) == Some(s as nat),
            None => eligible_size(part@) is None,
        },
{
    match inline_data_str(part) {
        Some(d) => {
            if is_url_like_exec(d.as_str()) {
                None
            } else {
                Some(utf8_len_exec(d.as_str()))
            }
        },
        None => None,
    }
}

/// Keeps, among the parts, the image with the largest payload and drops
/// the other inline images.
#[verifier::rlimit(80)]
#[verifier::spinoff_prover]
fn keep_largest_in_parts(parts: Vec<JsonValue>) -> (r: Vec<JsonValue>)
    ensures
        model_seq(r@) == keep_in_parts(model_seq(parts@)),
{
    reveal(keep_in_parts);
    let ghost ms = model_seq(parts@);
    proof {
        lemma_model_seq_all(parts@);
    }
    let mut best_index: Option<usize> = None;
    let mut best_size: u128 = 0;
    let mut i: usize = 0;
    while i < parts.len()
        invariant
            0 <= i <= parts.len(),
            ms == model_seq(parts@),
            ms.len() == parts@.len(),
            forall|k: int| 0 <= k < parts@.len() ==> #[trigger] ms[k] == model(parts@[k]),
            best_upto(ms, i as nat) == (
                match best_index {
                    Some(b) => Some(b as int),
                    None => None,
                },
                best_size as nat,
            ),
        decreases parts.len() - i,
    {
        match eligible_size_exec(&parts[i]) {
            Some(sz) => {
                if sz > best_size {
                    best_size = sz;
                    best_index = Some(i);
                }
            },
            None => {},
        }
        i += 1;
    }
    let b = match best_index {
        Some(b) => b,
        None => {
            return parts;
        },
    };
    let ghost keep = |k: int| !is_inline_image(ms[k]) || k == b;
    let mut retained: Vec<JsonValue> = Vec::new();
    let mut rest = parts;
    let mut idx: usize = 0;
    proof {
        assert(ms.subrange(0, 0) =~= Seq::<Json>::empty());
        lemma_model_seq_ext(retained@, Seq::empty());
        assert(rest@.subrange(0, rest@.len() as int) =~= rest@);
    }
    while rest.len() > 0
        invariant
            0 <= idx <= ms.len(),
            ms.len() <= usize::MAX,
            rest@.len() == ms.len() - idx,
            forall|k: int| 0 <= k < rest@.len() ==> model(#[trigger] rest@[k]) == ms[idx + k],
            model_seq(retained@) == keep_parts(ms.subrange(0, idx as int), b as int),
        decreases rest.len(),
    {
        let p = rest.remove(0);
        let image = inline_data_str(&p).is_some();
        proof {
            assert(model(p) == ms[idx as int]);
            let sub = ms.subrange(0, idx + 1);
            assert(sub.drop_last() =~= ms.subrange(0, idx as int));
            assert(sub[idx as int] == ms[idx as int]);
            lemma_model_seq_all(retained@);
        }
        if !image || idx == b {
            let ghost before = retained@;
            retained.push(p);
            proof {
                lemma_model_seq_all(before);
                lemma_model_seq_ext(
                    retained@,
                    keep_parts(ms.subrange(0, idx + 1), b as int),
                );
            }
        }
        idx += 1;
    }
    proof {
        assert(ms.subrange(0, ms.len() as int) =~= ms);
    }
    retained
}

/// The content members with `parts` reduced to the largest image.
#[verifier::rlimit(100)]
#[verifier::spinoff_prover]
fn keep_in_content(contfs: Vec<(String, JsonValue)>) -> (r: Vec<(String, JsonValue)>)
    ensures
        model_fields(r@) == with_kept_parts(model_fields(contfs@)),
{
    reveal(with_kept_parts);
    let mut contfs = contfs;
    proof {
        lemma_model_fields_all(contfs@);
    }
    let k = match find_field(&contfs, "parts") {
        Some(k) => k,
        None => {
            return contfs;
        },
    };
    let ghost before = contfs@;
    let (pk, parts) = contfs.remove(k);
    match parts {
        JsonValue::Array(items) => {
            let kept = keep_largest_in_parts(items);
            let ghost pkv = pk@;
            let ghost kept_v = model_seq(kept@);
            contfs.insert(k, (pk, JsonValue::Array(kept)));
            proof {
                lemma_model_fields_ext(
                    contfs@,
                    model_fields(before).update(k as int, (pkv, Json::Array(kept_v))),
                );
            }
            contfs
        },
        other => {
            contfs.insert(k, (pk, other));
            proof {
                assert(contfs@ =~= before);
            }
            contfs
        },
    }
}

/// The candidate members with `content.parts` reduced to the largest image.
#[verifier::rlimit(100)]
#[verifier::spinoff_prover]
fn keep_in_candidate_fields(cfs: Vec<(String, JsonValue)>) -> (r: Vec<(String, JsonValue)>)
    ensures
        model_fields(r@) == with_kept_content(model_fields(cfs@)),
{
    reveal(with_kept_content);
    let mut cfs = cfs;
    proof {
        lemma_model_fields_all(cfs@);
    }
    let j = match find_field(&cfs, "content") {
        Some(j) => j,
        None => {
            return cfs;
        },
    };
    let ghost before = cfs@;
    let ghost mb = model_fields(before);
    let (ck, content) = cfs.remove(j);
    proof {
        assert(mb[j as int] == (ck@, model(content)));
        assert(field_index(mb, "content"@) == Some(j as int));
    }
    match content {
        JsonValue::Object(contfs) => {
            let ghost cv = model_fields(contfs@);
            assert(mb[j as int].1 == Json::Object(cv));
            let updated = keep_in_content(contfs);
            let ghost ckv = ck@;
            let ghost uv = model_fields(updated@);
            let nv = JsonValue::Object(updated);
            assert(model(nv) == Json::Object(uv));
            cfs.insert(j, (ck, nv));
            proof {
                assert(cfs@ =~= before.update(j as int, cfs@[j as int]));
                lemma_model_fields_ext(cfs@, mb.update(j as int, (ckv, Json::Object(uv))));
                assert(uv == with_kept_parts(cv));
            }
            cfs
        },
        other => {
            cfs.insert(j, (ck, other));
            proof {
                assert(cfs@ =~= before);
            }
            cfs
        },
    }
}

fn keep_in_candidate_exec(c: JsonValue) -> (r: JsonValue)
    ensures
        r@ == keep_in_candidate(c@),
{
    reveal(keep_in_candidate);
    match c {
        JsonValue::Object(cfs) => JsonValue::Object(keep_in_candidate_fields(cfs)),
        other => other,
    }
}

fn keep_in_candidates(items: Vec<JsonValue>) -> (r: Vec<JsonValue>)
    ensures
        model_seq(r@) == model_seq(items@).map_values(|c: Json| keep_in_candidate(c)),
{
    let mut items = items;
    let ghost orig = model_seq(items@);
    proof {
        lemma_model_seq_all(items@);
    }
    let mut j: usize = 0;
    while j < items.len()
        invariant
            0 <= j <= items.len(),
            items@.len() == orig.len(),
            forall|k: int|
                0 <= k < j ==> model(#[trigger] items@[k]) == keep_in_candidate(orig[k]),
            forall|k: int| j <= k < items@.len() ==> model(#[trigger] items@[k]) == orig[k],
        decreases items.len() - j,
    {
        let c = items.remove(j);
        let nc = keep_in_candidate_exec(c);
        items.insert(j, nc);
        j += 1;
    }
    proof {
        lemma_model_seq_ext(items@, orig.map_values(|c: Json| keep_in_candidate(c)));
    }
    items
}

/// Keeps, in every candidate, only the inline image with the largest
/// payload; parts that are not inline images stay.
#[verifier::rlimit(100)]
#[verifier::spinoff_prover]
pub fn keep_largest_inline_image(body: JsonValue) -> (r: JsonValue)
    ensures
        r@ == keep_largest(body@),
{
    reveal(with_kept_candidates);
    match body {
        JsonValue::Object(fs) => {
            let mut fs = fs;
            proof {
                lemma_model_fields_all(fs@);
            }
            let i = match find_field(&fs, "candidates") {
                Some(i) => i,
                None => {
                    return JsonValue::Object(fs);
                },
            };
            let ghost before = fs@;
            let (key, cands) = fs.remove(i);
            match cands {
                JsonValue::Array(items) => {
                    let updated = keep_in_candidates(items);
                    let ghost kv = key@;
                    let ghost iv = model_seq(updated@);
                    fs.insert(i, (key, JsonValue::Array(updated)));
                    proof {
                        lemma_model_fields_ext(
                            fs@,
                            model_fields(before).update(i as int, (kv, Json::Array(iv))),
                        );
                    }
                    JsonValue::Object(fs)
                },
                other => {
                    fs.insert(i, (key, other));
                    proof {
                        assert(fs@ =~= before);
                    }
                    JsonValue::Object(fs)
                },
            }
        },
        other => other,
    }
}

// ---------------------------------------------------------------------
// Laws of `keep_largest_inline_image`
// ---------------------------------------------------------------------
proof fn lemma_best_upto(parts: Seq<Json>, n: nat)
    requires
        n <= parts.len(),
    ensures
        ({
            let (bi, bs) = best_upto(parts, n);
            &&& forall|k: int|
                0 <= k < n ==> match #[trigger] eligible_size(parts[k]) {
                    Some(s) => s <= bs,
                    None => true,
                }
            &&& match bi {
                Some(b) => 0 <= b < n && eligible_size(parts[b]) == Some(bs) && bs > 0
                    && forall|k: int|
                    0 <= k < b ==> match #[trigger] eligible_size(parts[k]) {
                        Some(s) => s < bs,
                        None => true,
                    },
                None => bs == 0,
            }
        }),
    decreases n,
{
    if n > 0 {
        lemma_best_upto(parts, (n - 1) as nat);
    }
}

/// The part a candidate keeps: it carries image data, no part carries
/// more, and every part before it carries less.
pub open spec fn first_largest(parts: Seq<Json>, b: int) -> bool {
    &&& 0 <= b < parts.len()
    &&& has_payload(parts[b])
    &&& forall|k: int|
        0 <= k < parts.len() ==> match #[trigger] eligible_size(parts[k]) {
            Some(s) => s <= eligible_size(parts[b])->0,
            None => true,
        }
    &&& forall|k: int|
        0 <= k < b ==> match #[trigger] eligible_size(parts[k]) {
            Some(s) => s < eligible_size(parts[b])->0,
            None => true,
        }
}

/// Which image a candidate keeps: where no part carries image data its
/// parts stay as they are; otherwise the first part with the largest
/// payload stays and every other inline image is dropped.
pub proof fn law_keep_largest_picks_first_largest(parts: Seq<Json>, b: int)
    ensures
        (forall|k: int| 0 <= k < parts.len() ==> !has_payload(#[trigger] parts[k])) ==> keep_in_parts(
            parts,
        ) == parts,
        first_largest(parts, b) ==> keep_in_parts(parts) == keep_parts(parts, b),
{
    reveal(keep_in_parts);
    lemma_best_upto(parts, parts.len());
    let (bi, bs) = best_upto(parts, parts.len());
    if let Some(c) = bi {
        assert(has_payload(parts[c]));
    }
    if first_largest(parts, b) {
        assert(eligible_size(parts[b]) is Some);
        let c = bi->0;
        assert(bi is Some);
        if c < b {
            assert(eligible_size(parts[c]) is Some);
        } else if b < c {
            assert(eligible_size(parts[b]) is Some);
        }
    }
}

#[verifier::rlimit(60)]
proof fn lemma_keep_parts(parts: Seq<Json>, b: int)
    ensures
        forall|i: int|
            0 <= i < keep_parts(parts, b).len() && is_inline_image(#[trigger] keep_parts(parts, b)[i])
                ==> 0 <= b < parts.len() && keep_parts(parts, b)[i] == parts[b],
        forall|k: int|
            0 <= k < parts.len() && !is_inline_image(#[trigger] parts[k]) ==> keep_parts(
                parts,
                b,
            ).contains(parts[k]),
    decreases parts.len(),
{
    if parts.len() > 0 {
        let prev = parts.drop_last();
        lemma_keep_parts(prev, b);
        let r = keep_parts(parts, b);
        let pr = keep_parts(prev, b);
        assert forall|k: int|
            0 <= k < parts.len() && !is_inline_image(#[trigger] parts[k]) implies r.contains(
            parts[k],
        ) by {
            if k < parts.len() - 1 {
                assert(prev[k] == parts[k]);
                let w = choose|w: int| 0 <= w < pr.len() && pr[w] == prev[k];
                if !is_inline_image(parts[parts.len() - 1]) || parts.len() - 1 == b {
                    assert(r[w] == parts[k]);
                }
            } else {
                assert(r[r.len() - 1] == parts[k]);
            }
        }
        assert forall|i: int|
            0 <= i < r.len() && is_inline_image(#[trigger] r[i]) implies 0 <= b < parts.len()
            && r[i] == parts[b] by {
            if i < pr.len() {
                assert(r[i] == pr[i]);
            }
        }
    }
}

/// In a candidate that carries image data, what remains is at most one
/// inline image, the one with the largest payload, and every part that is
/// not an inline image.
pub proof fn keep_largest_leaves_only_the_largest_image(parts: Seq<Json>)
    requires
        exists|k: int|
            0 <= k < parts.len() && #[trigger] has_payload(parts[k]),
    ensures
        ({
            let kept = keep_in_parts(parts);
            &&& forall|i: int, j: int|
                0 <= i < kept.len() && 0 <= j < kept.len() && is_inline_image(#[trigger] kept[i])
                    && is_inline_image(#[trigger] kept[j]) ==> kept[i] == kept[j]
            &&& exists|b: int|
                0 <= b < parts.len() && kept.contains(parts[b]) && forall|k: int|
                    0 <= k < parts.len() ==> match #[trigger] eligible_size(parts[k]) {
                        Some(s) => s <= eligible_size(parts[b])->0,
                        None => true,
                    } && eligible_size(parts[b]) is Some
            &&& forall|k: int|
                0 <= k < parts.len() && !is_inline_image(#[trigger] parts[k]) ==> kept.contains(
                    parts[k],
                )
        }),
{
    reveal(keep_in_parts);
    let k0 = choose|k: int|
        0 <= k < parts.len() && #[trigger] has_payload(parts[k]);
    lemma_best_upto(parts, parts.len());
    let (bi, bs) = best_upto(parts, parts.len());
    assert(eligible_size(parts[k0]) is Some);
    let b = bi->0;
    lemma_keep_parts(parts, b);
    let kept = keep_in_parts(parts);
    assert(kept == keep_parts(parts, b));
    assert(is_inline_image(parts[b]));
    // the largest image itself is kept
    assert(kept.contains(parts[b])) by {
        lemma_keep_parts_contains_best(parts, b);
    }
}

proof fn lemma_keep_parts_contains_best(parts: Seq<Json>, b: int)
    requires
        0 <= b < parts.len(),
    ensures
        keep_parts(parts, b).contains(parts[b]),
    decreases parts.len(),
{
    let prev = parts.drop_last();
    let r = keep_parts(parts, b);
    if b < parts.len() - 1 {
        lemma_keep_parts_contains_best(prev, b);
        let pr = keep_parts(prev, b);
        assert(prev[b] == parts[b]);
        let w = choose|w: int| 0 <= w < pr.len() && pr[w] == prev[b];
        if !is_inline_image(parts[parts.len() - 1]) || parts.len() - 1 == b {
            assert(r[w] == parts[b]);
        } else {
            assert(r == pr);
        }
    } else {
        assert(r[r.len() - 1] == parts[b]);
    }
}

// ---------------------------------------------------------------------
// Thought signatures
// ---------------------------------------------------------------------
/// `remove_thought_signatures` on the model: every object loses its
/// `thoughtSignature` member, at any depth.
pub open spec fn rts(v: Json) -> Json
    decreases v,
{
    match v {
        Json::Object(fs) => Json::Object(field_remove(rts_fields(fs), "thoughtSignature"@)),
        Json::Array(items) => Json::Array(rts_items(items)),
        _ => v,
    }
}

pub open spec fn rts_fields(fs: Seq<(Seq<char>, Json)>) -> Seq<(Seq<char>, Json)>
    decreases fs,
{
    if fs.len() == 0 {
        Seq::empty()
    } else {
        rts_fields(fs.subrange(0, fs.len() - 1)).push((fs[fs.len() - 1].0, rts(fs[fs.len() - 1].1)))
    }
}

pub open spec fn rts_items(items: Seq<Json>) -> Seq<Json>
    decreases items,
{
    if items.len() == 0 {
        Seq::empty()
    } else {
        rts_items(items.subrange(0, items.len() - 1)).push(rts(items[items.len() - 1]))
    }
}

/// Some object in the document, at any depth, has a member named `k`.
pub open spec fn mentions_key(v: Json, k: Seq<char>) -> bool
    decreases v,
{
    match v {
        Json::Object(fs) => exists|i: int|
            0 <= i < fs.len() && (#[trigger] fs[i].0 == k || mentions_key(fs[i].1, k)),
        Json::Array(items) => exists|i: int| 0 <= i < items.len() && mentions_key(#[trigger] items[i], k),
        _ => false,
    }
}

/// No object in the document, at any depth, names a member twice (as in
/// every document `serde_json` reads).
pub open spec fn distinct_members(v: Json) -> bool
    decreases v,
{
    match v {
        Json::Object(fs) => {
            &&& forall|i: int, j: int| 0 <= i < j < fs.len() ==> #[trigger] fs[i].0 != #[trigger] fs[j].0
            &&& forall|i: int| 0 <= i < fs.len() ==> distinct_members(#[trigger] fs[i].1)
        },
        Json::Array(items) => forall|i: int| 0 <= i < items.len() ==> distinct_members(#[trigger] items[i]),
        _ => true,
    }
}

proof fn lemma_rts_fields(fs: Seq<(Seq<char>, Json)>)
    ensures
        rts_fields(fs).len() == fs.len(),
        forall|i: int| 0 <= i < fs.len() ==> #[trigger] rts_fields(fs)[i] == (fs[i].0, rts(fs[i].1)),
    decreases fs.len(),
{
    if fs.len() > 0 {
        let init = fs.subrange(0, fs.len() - 1);
        lemma_rts_fields(init);
        assert forall|i: int| 0 <= i < fs.len() implies #[trigger] rts_fields(fs)[i] == (fs[i].0, rts(fs[i].1)) by {
            if i < fs.len() - 1 {
                assert(init[i] == fs[i]);
            }
        }
    }
}

proof fn lemma_rts_items(items: Seq<Json>)
    ensures
        rts_items(items).len() == items.len(),
        forall|i: int| 0 <= i < items.len() ==> #[trigger] rts_items(items)[i] == rts(items[i]),
    decreases items.len(),
{
    if items.len() > 0 {
        let init = items.subrange(0, items.len() - 1);
        lemma_rts_items(init);
        assert forall|i: int| 0 <= i < items.len() implies #[trigger] rts_items(items)[i] == rts(items[i]) by {
            if i < items.len() - 1 {
                assert(init[i] == items[i]);
            }
        }
    }
}

/// Removing a member keeps only members that were there; when no name is
/// repeated, none named `k` is left.
proof fn lemma_field_remove_members(fs: Seq<(Seq<char>, Json)>, k: Seq<char>)
    requires
        forall|i: int, j: int| 0 <= i < j < fs.len() ==> #[trigger] fs[i].0 != #[trigger] fs[j].0,
    ensures
        forall|i: int|
            0 <= i < field_remove(fs, k).len() ==> fs.contains(#[trigger] field_remove(fs, k)[i])
                && field_remove(fs, k)[i].0 != k,
{
    let r = field_remove(fs, k);
    match field_index(fs, k) {
        Some(x) => {
            assert forall|i: int| 0 <= i < r.len() implies fs.contains(#[trigger] r[i]) && r[i].0 != k by {
                if i == x {
                    assert(r[i] == fs[fs.len() - 1]);
                    assert(fs.contains(fs[fs.len() - 1]));
                    if x != fs.len() - 1 {
                        assert(fs[x].0 != fs[fs.len() - 1].0);
                    }
                } else {
                    assert(r[i] == fs[i]);
                    assert(fs.contains(fs[i]));
                    if i < x {
                        assert(fs[i].0 != fs[x].0);
                    } else {
                        assert(fs[x].0 != fs[i].0);
                    }
                }
            }
        },
        None => {
            assert forall|i: int| 0 <= i < r.len() implies fs.contains(#[trigger] r[i]) && r[i].0 != k by {
                assert(fs.contains(fs[i]));
            }
        },
    }
}

/// In a document where no object repeats a member name, removing thought
/// signatures leaves no `thoughtSignature` member at any depth.
pub proof fn law_thought_signatures_removed_everywhere(v: Json)
    requires
        distinct_members(v),
    ensures
        !mentions_key(rts(v), "thoughtSignature"@),
    decreases v,
{
    let k = "thoughtSignature"@;
    match v {
        Json::Object(fs) => {
            lemma_rts_fields(fs);
            let rf = rts_fields(fs);
            assert forall|i: int, j: int| 0 <= i < j < rf.len() implies #[trigger] rf[i].0 != #[trigger] rf[j].0 by {
                assert(fs[i].0 != fs[j].0);
            }
            lemma_field_remove_members(rf, k);
            let r = field_remove(rf, k);
            assert forall|i: int| 0 <= i < r.len() implies !(#[trigger] r[i].0 == k || mentions_key(r[i].1, k)) by {
                assert(rf.contains(r[i]));
                let j = choose|j: int| 0 <= j < rf.len() && rf[j] == r[i];
                assert(distinct_members(fs[j].1));
                law_thought_signatures_removed_everywhere(fs[j].1);
            }
        },
        Json::Array(items) => {
            lemma_rts_items(items);
            let ri = rts_items(items);
            assert forall|i: int| 0 <= i < ri.len() implies !mentions_key(#[trigger] ri[i], k) by {
                assert(distinct_members(items[i]));
                law_thought_signatures_removed_everywhere(items[i]);
            }
        },
        _ => {},
    }
}

proof fn lemma_member_mentions(fs: Seq<(Seq<char>, Json)>, k: Seq<char>, i: int)
    requires
        0 <= i < fs.len(),
        fs[i].0 == k || mentions_key(fs[i].1, k),
    ensures
        mentions_key(Json::Object(fs), k),
{
    let w = Json::Object(fs);
    assert(w->Object_0[i].0 == fs[i].0);
    assert(w->Object_0[i].1 == fs[i].1);
}

proof fn lemma_item_mentions(items: Seq<Json>, k: Seq<char>, i: int)
    requires
        0 <= i < items.len(),
        mentions_key(items[i], k),
    ensures
        mentions_key(Json::Array(items), k),
{
    let w = Json::Array(items);
    assert(w->Array_0[i] == items[i]);
}

/// A document with no thought signature in it is left as it is.
proof fn lemma_rts_without_key(v: Json)
    requires
        !mentions_key(v, "thoughtSignature"@),
    ensures
        rts(v) == v,
    decreases v,
{
    let k = "thoughtSignature"@;
    match v {
        Json::Object(fs) => {
            lemma_rts_fields(fs);
            let rf = rts_fields(fs);
            assert forall|i: int| 0 <= i < fs.len() implies #[trigger] rf[i] == fs[i] by {
                if fs[i].0 == k || mentions_key(fs[i].1, k) {
                    lemma_member_mentions(fs, k, i);
                }
                lemma_rts_without_key(fs[i].1);
            }
            assert(rf =~= fs);
            lemma_field_index_none(rf, k);
        },
        Json::Array(items) => {
            lemma_rts_items(items);
            let ri = rts_items(items);
            assert forall|i: int| 0 <= i < items.len() implies #[trigger] ri[i] == items[i] by {
                if mentions_key(items[i], k) {
                    lemma_item_mentions(items, k, i);
                }
                lemma_rts_without_key(items[i]);
            }
            assert(ri =~= items);
        },
        _ => {},
    }
}

/// In a document where no object repeats a member name, removing thought
/// signatures a second time changes nothing.
pub proof fn law_remove_thought_signatures_idempotent(v: Json)
    requires
        distinct_members(v),
    ensures
        rts(rts(v)) == rts(v),
{
    law_thought_signatures_removed_everywhere(v);
    lemma_rts_without_key(rts(v));
}

#[verifier::loop_isolation(false)]
#[verifier::rlimit(60)]
#[verifier::spinoff_prover]
fn rts_value(v: &JsonValue) -> (r: JsonValue)
    ensures
        r@ == rts(v@),
    decreases *v,
{
    match v {
        JsonValue::Object(fields) => {
            let ghost mf = model_fields(fields@);
            proof {
                lemma_model_fields_all(fields@);
            }
            let mut out: Vec<(String, JsonValue)> = Vec::new();
            let mut i: usize = 0;
            proof {
                assert(mf.subrange(0, 0) =~= Seq::<(Seq<char>, Json)>::empty());
                lemma_model_fields_ext(out@, Seq::empty());
            }
            while i < fields.len()
                invariant
                    0 <= i <= fields.len(),
                    out@.len() == i,
                    model_fields(out@) == rts_fields(mf.subrange(0, i as int)),
                decreases fields.len() - i,
            {
                proof {
                    assert(decreases_to!(*v => fields@[i as int].1));
                    let sub = mf.subrange(0, i + 1);
                    assert(sub.subrange(0, sub.len() - 1) =~= mf.subrange(0, i as int));
                    assert(sub[sub.len() - 1] == mf[i as int]);
                }
                let child = rts_value(&fields[i].1);
                let ghost before = out@;
                out.push((fields[i].0.clone(), child));
                proof {
                    lemma_model_fields_all(before);
                    lemma_model_fields_ext(out@, rts_fields(mf.subrange(0, i + 1)));
                }
                i += 1;
            }
            proof {
                assert(mf.subrange(0, fields@.len() as int) =~= mf);
            }
            let _ = fields_remove(&mut out, "thoughtSignature");
            JsonValue::Object(out)
        },
        JsonValue::Array(items) => {
            let ghost ms = model_seq(items@);
            proof {
                lemma_model_seq_all(items@);
            }
            let mut out: Vec<JsonValue> = Vec::new();
            let mut i: usize = 0;
            proof {
                assert(ms.subrange(0, 0) =~= Seq::<Json>::empty());
                lemma_model_seq_ext(out@, Seq::empty());
            }
            while i < items.len()
                invariant
                    0 <= i <= items.len(),
                    out@.len() == i,
                    model_seq(out@) == rts_items(ms.subrange(0, i as int)),
                decreases items.len() - i,
            {
                proof {
                    assert(decreases_to!(*v => items@[i as int]));
                    let sub = ms.subrange(0, i + 1);
                    assert(sub.subrange(0, sub.len() - 1) =~= ms.subrange(0, i as int));
                    assert(sub[sub.len() - 1] == ms[i as int]);
                }
                let child = rts_value(&items[i]);
                let ghost before = out@;
                out.push(child);
                proof {
                    lemma_model_seq_all(before);
                    lemma_model_seq_ext(out@, rts_items(ms.subrange(0, i + 1)));
                }
                i += 1;
            }
            proof {
                assert(ms.subrange(0, items@.len() as int) =~= ms);
            }
            JsonValue::Array(out)
        },
        _ => v.deep_clone(),
    }
}

/// Removes every `thoughtSignature` member, at any depth.
pub fn remove_thought_signatures(node: &mut JsonValue)
    ensures
        final(node)@ == rts(old(node)@),
{
    let cleaned = rts_value(node);
    *node = cleaned;
}

/// A Gemini response as the proxy returns it: no thought signatures and
/// one image per candidate.
pub fn normalize_gemini_response(body: JsonValue) -> (r: JsonValue)
    ensures
        r@ == keep_largest(rts(body@)),
{
    let mut body = body;
    remove_thought_signatures(&mut body);
    keep_largest_inline_image(body)
}

// ---------------------------------------------------------------------
// Markdown image links
// ---------------------------------------------------------------------
/// Whether an `inlineData` member occurs anywhere.
pub open spec fn has_inline_data(v: Json) -> bool
    decreases v,
{
    match v {
        Json::Object(fs) => field_index(fs, "inlineData"@) is Some || has_inline_data_fields(fs),
        Json::Array(items) => has_inline_data_items(items),
        _ => false,
    }
}

pub open spec fn has_inline_data_fields(fs: Seq<(Seq<char>, Json)>) -> bool
    decreases fs,
{
    fs.len() > 0 && (has_inline_data_fields(fs.subrange(0, fs.len() - 1)) || has_inline_data(
        fs[fs.len() - 1].1,
    ))
}

pub open spec fn has_inline_data_items(items: Seq<Json>) -> bool
    decreases items,
{
    items.len() > 0 && (has_inline_data_items(items.subrange(0, items.len() - 1))
        || has_inline_data(items[items.len() - 1]))
}

#[verifier::loop_isolation(false)]
#[verifier::spinoff_prover]
pub fn contains_inline_data(node: &JsonValue) -> (r: bool)
    ensures
        r == has_inline_data(node@),
    decreases *node,
{
    match node {
        JsonValue::Object(fields) => {
            if find_field(fields, "inlineData").is_some() {
                return true;
            }
            let ghost mf = model_fields(fields@);
            proof {
                lemma_model_fields_all(fields@);
                assert(mf.subrange(0, 0) =~= Seq::<(Seq<char>, Json)>::empty());
            }
            let mut i: usize = 0;
            while i < fields.len()
                invariant
                    0 <= i <= fields.len(),
                    !has_inline_data_fields(mf.subrange(0, i as int)),
                decreases fields.len() - i,
            {
                proof {
                    assert(decreases_to!(*node => fields@[i as int].1));
                    let sub = mf.subrange(0, i + 1);
                    assert(sub.subrange(0, sub.len() - 1) =~= mf.subrange(0, i as int));
                    assert(sub[sub.len() - 1] == mf[i as int]);
                }
                if contains_inline_data(&fields[i].1) {
                    proof {
                        lemma_fields_any_grows(mf, (i + 1) as nat);
                    }
                    return true;
                }
                i += 1;
            }
            proof {
                assert(mf.subrange(0, fields@.len() as int) =~= mf);
            }
            false
        },
        JsonValue::Array(items) => {
            let ghost ms = model_seq(items@);
            proof {
                lemma_model_seq_all(items@);
                assert(ms.subrange(0, 0) =~= Seq::<Json>::empty());
            }
            let mut i: usize = 0;
            while i < items.len()
                invariant
                    0 <= i <= items.len(),
                    !has_inline_data_items(ms.subrange(0, i as int)),
                decreases items.len() - i,
            {
                proof {
                    assert(decreases_to!(*node => items@[i as int]));
                    let sub = ms.subrange(0, i + 1);
                    assert(sub.subrange(0, sub.len() - 1) =~= ms.subrange(0, i as int));
                    assert(sub[sub.len() - 1] == ms[i as int]);
                }
                if contains_inline_data(&items[i]) {
                    proof {
                        lemma_items_any_grows(ms, (i + 1) as nat);
                    }
                    return true;
                }
                i += 1;
            }
            proof {
                assert(ms.subrange(0, items@.len() as int) =~= ms);
            }
            false
        },
        _ => false,
    }
}

proof fn lemma_fields_any_grows(fs: Seq<(Seq<char>, Json)>, n: nat)
    requires
        n <= fs.len(),
        has_inline_data_fields(fs.subrange(0, n as int)),
    ensures
        has_inline_data_fields(fs),
    decreases fs.len() - n,
{
    if n < fs.len() {
        let next = fs.subrange(0, (n + 1) as int);
        assert(next.subrange(0, next.len() - 1) =~= fs.subrange(0, n as int));
        lemma_fields_any_grows(fs, n + 1);
    } else {
        assert(fs.subrange(0, n as int) =~= fs);
    }
}

proof fn lemma_items_any_grows(items: Seq<Json>, n: nat)
    requires
        n <= items.len(),
        has_inline_data_items(items.subrange(0, n as int)),
    ensures
        has_inline_data_items(items),
    decreases items.len() - n,
{
    if n < items.len() {
        let next = items.subrange(0, (n + 1) as int);
        assert(next.subrange(0, next.len() - 1) =~= items.subrange(0, n as int));
        lemma_items_any_grows(items, n + 1);
    } else {
        assert(items.subrange(0, n as int) =~= items);
    }
}

/// The target of the first Markdown link (`](url)`) in a text, when it is
/// an `http`/`https` URL.
pub open spec fn spec_markdown_url(text: Seq<char>) -> Option<Seq<char>> {
    match find(text, "]("@) {
        None => None,
        Some(s) => {
            let rest = text.subrange(s + "]("@.len(), text.len() as int);
            match find_char(rest, ')') {
                None => None,
                Some(e) => {
                    let candidate = trim(rest.subrange(0, e));
                    if is_http_url(candidate) {
                        Some(candidate)
                    } else {
                        None
                    }
                },
            }
        },
    }
}

pub fn extract_markdown_image_url(text: &str) -> (r: Option<String>)
    ensures
        match r {
            Some(u) => spec_markdown_url(text@) == Some(u@),
            None => spec_markdown_url(text@) is None,
        },
{
    let t = chars_of(text);
    let open = chars_of("](");
    let start = match find_vec(&t, &open) {
        Some(s) => s,
        None => {
            return None;
        },
    };
    proof {
        assert(crate::text::occurs_at(t@, open@, start as int));
        assert(start + open@.len() <= t@.len());
        assert(open@.len() == open.len());
    }
    let skip = open.len();
    let tl = t.len();
    assert(start + skip <= tl);
    let from = start + skip;
    let rest = slice_range(&t, from, t.len());
    let end = match find_char_vec(&rest, ')') {
        Some(e) => e,
        None => {
            return None;
        },
    };
    let head = slice_range(&rest, 0, end);
    let candidate = trim_vec(&head);
    let cs = string_of(&candidate);
    if crate::request_scan::is_http_url_exec(cs.as_str()) {
        Some(cs)
    } else {
        None
    }
}

/// The Markdown image URL a part's text holds.
pub open spec fn markdown_url_of_part(p: Json) -> Option<Seq<char>> {
    match crate::json::as_str(crate::json::get(p, "text"@)) {
        Some(t) => if trim(t).len() == 0 {
            None
        } else {
            spec_markdown_url(trim(t))
        },
        None => None,
    }
}

/// The first Markdown image URL among the parts.
pub open spec fn first_markdown_url(parts: Seq<Json>) -> Option<Seq<char>>
    decreases parts.len(),
{
    if parts.len() == 0 {
        None
    } else {
        match markdown_url_of_part(parts[0]) {
            Some(u) => Some(u),
            None => first_markdown_url(parts.drop_first()),
        }
    }
}

#[verifier::rlimit(50)]
pub fn extract_first_markdown_image_url_from_parts(parts: &[JsonValue]) -> (r: Option<String>)
    ensures
        match r {
            Some(u) => first_markdown_url(model_seq(parts@)) == Some(u@),
            None => first_markdown_url(model_seq(parts@)) is None,
        },
{
    let ghost ms = model_seq(parts@);
    proof {
        lemma_model_seq_all(parts@);
        assert(ms.subrange(0, ms.len() as int) =~= ms);
    }
    let mut i: usize = 0;
    while i < parts.len()
        invariant
            0 <= i <= parts.len(),
            ms == model_seq(parts@),
            ms.len() == parts@.len(),
            forall|k: int| 0 <= k < parts@.len() ==> #[trigger] ms[k] == model(parts@[k]),
            first_markdown_url(ms) == first_markdown_url(ms.subrange(i as int, ms.len() as int)),
        decreases parts.len() - i,
    {
        proof {
            let rest = ms.subrange(i as int, ms.len() as int);
            assert(rest.drop_first() =~= ms.subrange(i + 1, ms.len() as int));
            assert(rest[0] == ms[i as int]);
        }
        let found = match parts[i].get("text") {
            Some(tv) => match tv.as_str() {
                Some(text) => {
                    let t = crate::text::trim_str(text.as_str());
                    if t.as_str().is_empty() {
                        None
                    } else {
                        extract_markdown_image_url(t.as_str())
                    }
                },
                None => None,
            },
            None => None,
        };
        if found.is_some() {
            return found;
        }
        i += 1;
    }
    None
}

/// `{base}/proxy/image?u={url-safe base64 of the target}`.
pub open spec fn spec_wrap_proxy_url_encoded(public_base_url: Seq<char>, target: Seq<char>) -> Seq<
    char,
> {
    trim_end_char(trim(public_base_url), '/') + "/proxy/image?u="@ + base64_url_nopad_of_text(
        target,
    )
}

pub fn wrap_proxy_url_encoded(public_base_url: &str, target_url: &str) -> (r: String)
    ensures
        r@ == spec_wrap_proxy_url_encoded(public_base_url@, target_url@),
{
    let v = chars_of(public_base_url);
    let t = trim_vec(&v);
    let base = trim_end_char_vec(&t, '/');
    let b = string_of(&base);
    let encoded = base64_url_nopad_encode_text(target_url);
    let a = concat(b.as_str(), "/proxy/image?u=");
    concat(a.as_str(), encoded.as_str())
}

// ---------------------------------------------------------------------
// Inline images: finding and replacing them
// ---------------------------------------------------------------------
/// An inline image: its MIME type and its base64 data.
#[derive(Clone, Debug, PartialEq, Eq)]
pub struct InlineDataEntry {
    pub mime_type: String,
    pub data: String,
}

pub open spec fn entry_view(e: InlineDataEntry) -> (Seq<char>, Seq<char>) {
    (e.mime_type@, e.data@)
}

impl InlineDataEntry {
    /// A copy of the entry.
    pub fn clone_entry(&self) -> (r: InlineDataEntry)
        ensures
            entry_view(r) == entry_view(*self),
    {
        InlineDataEntry { mime_type: self.mime_type.clone(), data: self.data.clone() }
    }
}

pub open spec fn entries_view(v: Seq<InlineDataEntry>) -> Seq<(Seq<char>, Seq<char>)> {
    v.map_values(|e: InlineDataEntry| entry_view(e))
}

/// The image an object carries in `inlineData` (string `data` and
/// `mimeType`, data not a URL).
pub open spec fn own_entry(fs: Seq<(Seq<char>, Json)>) -> Seq<(Seq<char>, Seq<char>)> {
    match member_object(fs, "inlineData"@) {
        Some(inl) => match (member_str(inl, "data"@), member_str(inl, "mimeType"@)) {
            (Some(d), Some(m)) => if !is_url_like(d) {
                seq![(m, d)]
            } else {
                Seq::empty()
            },
            _ => Seq::empty(),
        },
        None => Seq::empty(),
    }
}

/// Every inline image under `v`, in document order, repeats included.
pub open spec fn entries_of(v: Json) -> Seq<(Seq<char>, Seq<char>)>
    decreases v,
{
    match v {
        Json::Object(fs) => own_entry(fs) + entries_fields(fs),
        Json::Array(items) => entries_items(items),
        _ => Seq::empty(),
    }
}

pub open spec fn entries_fields(fs: Seq<(Seq<char>, Json)>) -> Seq<(Seq<char>, Seq<char>)>
    decreases fs,
{
    if fs.len() == 0 {
        Seq::empty()
    } else {
        entries_fields(fs.subrange(0, fs.len() - 1)) + entries_of(fs[fs.len() - 1].1)
    }
}

pub open spec fn entries_items(items: Seq<Json>) -> Seq<(Seq<char>, Seq<char>)>
    decreases items,
{
    if items.len() == 0 {
        Seq::empty()
    } else {
        entries_items(items.subrange(0, items.len() - 1)) + entries_of(items[items.len() - 1])
    }
}

/// `acc` followed by the members of `s` it does not hold yet, in order.
pub open spec fn add_all(acc: Seq<(Seq<char>, Seq<char>)>, s: Seq<(Seq<char>, Seq<char>)>) -> Seq<
    (Seq<char>, Seq<char>),
>
    decreases s.len(),
{
    if s.len() == 0 {
        acc
    } else {
        let a = add_all(acc, s.drop_last());
        if a.contains(s.last()) {
            a
        } else {
            a.push(s.last())
        }
    }
}

proof fn lemma_add_all_concat(
    acc: Seq<(Seq<char>, Seq<char>)>,
    a: Seq<(Seq<char>, Seq<char>)>,
    b: Seq<(Seq<char>, Seq<char>)>,
)
    ensures
        add_all(acc, a + b) == add_all(add_all(acc, a), b),
    decreases b.len(),
{
    if b.len() == 0 {
        assert(a + b =~= a);
    } else {
        assert((a + b).drop_last() =~= a + b.drop_last());
        assert((a + b).last() == b.last());
        lemma_add_all_concat(acc, a, b.drop_last());
    }
}

fn entry_eq(a: &InlineDataEntry, mime: &String, data: &String) -> (r: bool)
    ensures
        r == (entry_view(*a) == (mime@, data@)),
{
    crate::text::str_eq(a.mime_type.as_str(), mime.as_str()) && crate::text::str_eq(
        a.data.as_str(),
        data.as_str(),
    )
}

fn add_entry(entries: &mut Vec<InlineDataEntry>, mime: &String, data: &String)
    ensures
        entries_view(final(entries)@) == add_all(entries_view(old(entries)@), seq![(mime@, data@)]),
{
    let ghost ev = entries_view(entries@);
    let mut k: usize = 0;
    while k < entries.len()
        invariant
            0 <= k <= entries.len(),
            ev == entries_view(entries@),
            forall|m: int| 0 <= m < k ==> ev[m] != (mime@, data@),
        decreases entries.len() - k,
    {
        if entry_eq(&entries[k], mime, data) {
            proof {
                let s1 = seq![(mime@, data@)];
                assert(s1.drop_last() =~= Seq::<(Seq<char>, Seq<char>)>::empty());
                assert(add_all(ev, s1.drop_last()) == ev);
                assert(s1.last() == (mime@, data@));
                assert(ev[k as int] == (mime@, data@));
                assert(ev.contains((mime@, data@)));
            }
            return;
        }
        k += 1;
    }
    proof {
        let s1 = seq![(mime@, data@)];
        assert(s1.drop_last() =~= Seq::<(Seq<char>, Seq<char>)>::empty());
        assert(add_all(ev, s1.drop_last()) == ev);
        assert(s1.last() == (mime@, data@));
        assert(!ev.contains((mime@, data@)));
    }
    entries.push(InlineDataEntry { mime_type: mime.clone(), data: data.clone() });
    proof {
        assert(entries_view(entries@) =~= ev.push((mime@, data@)));
    }
}

fn own_entry_exec(fields: &Vec<(String, JsonValue)>) -> (r: Option<(&String, &String)>)
    ensures
        match r {
            Some((m, d)) => own_entry(model_fields(fields@)) == seq![(m@, d@)],
            None => own_entry(model_fields(fields@)) == Seq::<(Seq<char>, Seq<char>)>::empty(),
        },
{
    match fields_get_object(fields, "inlineData") {
        Some(inl) => match (fields_get_str(inl, "data"), fields_get_str(inl, "mimeType")) {
            (Some(d), Some(m)) => {
                if !is_url_like_exec(d.as_str()) {
                    Some((m, d))
                } else {
                    None
                }
            },
            _ => None,
        },
        None => None,
    }
}

#[verifier::loop_isolation(false)]
#[verifier::rlimit(100)]
#[verifier::spinoff_prover]
fn walk_entries(node: &JsonValue, entries: &mut Vec<InlineDataEntry>)
    ensures
        entries_view(final(entries)@) == add_all(entries_view(old(entries)@), entries_of(node@)),
    decreases *node,
{
    let ghost start = entries_view(entries@);
    match node {
        JsonValue::Object(fields) => {
            let ghost mf = model_fields(fields@);
            proof {
                lemma_model_fields_all(fields@);
            }
            match own_entry_exec(fields) {
                Some((m, d)) => {
                    add_entry(entries, m, d);
                },
                None => {},
            }
            let ghost own = own_entry(mf);
            proof {
                if own.len() == 0 {
                    assert(entries_view(entries@) == add_all(start, own));
                }
                assert(entries_view(entries@) == add_all(start, own));
                assert(own + entries_fields(mf.subrange(0, 0)) =~= own);
            }
            let mut i: usize = 0;
            while i < fields.len()
                invariant
                    0 <= i <= fields.len(),
                    entries_view(entries@) == add_all(
                        start,
                        own + entries_fields(mf.subrange(0, i as int)),
                    ),
                decreases fields.len() - i,
            {
                proof {
                    assert(decreases_to!(*node => fields@[i as int].1));
                }
                let ghost prev = own + entries_fields(mf.subrange(0, i as int));
                walk_entries(&fields[i].1, entries);
                proof {
                    let sub = mf.subrange(0, i + 1);
                    assert(sub.subrange(0, sub.len() - 1) =~= mf.subrange(0, i as int));
                    assert(sub[sub.len() - 1] == mf[i as int]);
                    lemma_add_all_concat(start, prev, entries_of(mf[i as int].1));
                    assert(prev + entries_of(mf[i as int].1) =~= own + entries_fields(sub));
                }
                i += 1;
            }
            proof {
                assert(mf.subrange(0, fields@.len() as int) =~= mf);
            }
        },
        JsonValue::Array(items) => {
            let ghost ms = model_seq(items@);
            proof {
                lemma_model_seq_all(items@);
                assert(entries_items(ms.subrange(0, 0)) =~= Seq::<(Seq<char>, Seq<char>)>::empty());
            }
            let mut i: usize = 0;
            while i < items.len()
                invariant
                    0 <= i <= items.len(),
                    entries_view(entries@) == add_all(start, entries_items(ms.subrange(0, i as int))),
                decreases items.len() - i,
            {
                proof {
                    assert(decreases_to!(*node => items@[i as int]));
                }
                let ghost prev = entries_items(ms.subrange(0, i as int));
                walk_entries(&items[i], entries);
                proof {
                    let sub = ms.subrange(0, i + 1);
                    assert(sub.subrange(0, sub.len() - 1) =~= ms.subrange(0, i as int));
                    assert(sub[sub.len() - 1] == ms[i as int]);
                    lemma_add_all_concat(start, prev, entries_of(ms[i as int]));
                }
                i += 1;
            }
            proof {
                assert(ms.subrange(0, items@.len() as int) =~= ms);
            }
        },
        _ => {},
    }
}

/// Every inline image (string `data` that is not a URL, string
/// `mimeType`) in the document, each once, in document order.
pub fn scan_inline_data_base64_entries(node: &JsonValue) -> (r: Vec<InlineDataEntry>)
    ensures
        entries_view(r@) == add_all(Seq::empty(), entries_of(node@)),
{
    let mut entries: Vec<InlineDataEntry> = Vec::new();
    proof {
        assert(entries_view(entries@) =~= Seq::empty());
    }
    walk_entries(node, &mut entries);
    entries
}

/// What replaces an inline image: its data, and its MIME type when that
/// changes too. Patches are kept in a list, each naming its entry, rather
/// than in a map keyed by entries: the standard maps keyed by text or by
/// such a struct come with no specification of lookup that a proof could
/// rest on.
#[derive(Clone, Debug, PartialEq, Eq)]
pub struct InlineDataPatch {
    pub entry: InlineDataEntry,
    pub mime_type: Option<String>,
    pub data: String,
}

pub open spec fn patch_view(p: InlineDataPatch) -> ((Seq<char>, Seq<char>), Option<Seq<char>>, Seq<char>) {
    (
        entry_view(p.entry),
        match p.mime_type {
            Some(m) => Some(m@),
            None => None,
        },
        p.data@,
    )
}

pub open spec fn patches_view(v: Seq<InlineDataPatch>) -> Seq<
    ((Seq<char>, Seq<char>), Option<Seq<char>>, Seq<char>),
> {
    v.map_values(|p: InlineDataPatch| patch_view(p))
}

/// The first patch for an image.
pub open spec fn lookup_patch(
    ps: Seq<((Seq<char>, Seq<char>), Option<Seq<char>>, Seq<char>)>,
    e: (Seq<char>, Seq<char>),
) -> Option<(Option<Seq<char>>, Seq<char>)>
    decreases ps.len(),
{
    if ps.len() == 0 {
        None
    } else if ps[0].0 == e {
        Some((ps[0].1, ps[0].2))
    } else {
        lookup_patch(ps.drop_first(), e)
    }
}

/// An object's own `inlineData` with the patch applied.
#[verifier::opaque]
pub open spec fn own_patch(
    fs: Seq<(Seq<char>, Json)>,
    ps: Seq<((Seq<char>, Seq<char>), Option<Seq<char>>, Seq<char>)>,
) -> Seq<(Seq<char>, Json)> {
    match member_object(fs, "inlineData"@) {
        Some(inl) => match (member_str(inl, "data"@), member_str(inl, "mimeType"@)) {
            (Some(d), Some(m)) => match lookup_patch(ps, (m, d)) {
                Some((nm, nd)) => crate::json::field_insert(
                    fs,
                    "inlineData"@,
                    Json::Object(patched_inline(inl, nm, nd)),
                ),
                None => fs,
            },
            _ => fs,
        },
        None => fs,
    }
}

/// Every inline image that a patch names, replaced, at any depth.
pub open spec fn patched(
    v: Json,
    ps: Seq<((Seq<char>, Seq<char>), Option<Seq<char>>, Seq<char>)>,
) -> Json
    decreases v,
{
    match v {
        Json::Object(fs) => Json::Object(own_patch(patched_fields(fs, ps), ps)),
        Json::Array(items) => Json::Array(patched_items(items, ps)),
        _ => v,
    }
}

pub open spec fn patched_fields(
    fs: Seq<(Seq<char>, Json)>,
    ps: Seq<((Seq<char>, Seq<char>), Option<Seq<char>>, Seq<char>)>,
) -> Seq<(Seq<char>, Json)>
    decreases fs,
{
    if fs.len() == 0 {
        Seq::empty()
    } else {
        patched_fields(fs.subrange(0, fs.len() - 1), ps).push(
            (fs[fs.len() - 1].0, patched(fs[fs.len() - 1].1, ps)),
        )
    }
}

pub open spec fn patched_items(
    items: Seq<Json>,
    ps: Seq<((Seq<char>, Seq<char>), Option<Seq<char>>, Seq<char>)>,
) -> Seq<Json>
    decreases items,
{
    if items.len() == 0 {
        Seq::empty()
    } else {
        patched_items(items.subrange(0, items.len() - 1), ps).push(
            patched(items[items.len() - 1], ps),
        )
    }
}

fn find_patch<'a>(patches: &'a [InlineDataPatch], mime: &String, data: &String) -> (r: Option<
    &'a InlineDataPatch,
>)
    ensures
        match r {
            Some(p) => lookup_patch(patches_view(patches@), (mime@, data@)) == Some(
                (patch_view(*p).1, patch_view(*p).2),
            ),
            None => lookup_patch(patches_view(patches@), (mime@, data@)) is None,
        },
{
    let ghost pv = patches_view(patches@);
    let mut i: usize = 0;
    proof {
        assert(pv.subrange(0, pv.len() as int) =~= pv);
    }
    while i < patches.len()
        invariant
            0 <= i <= patches.len(),
            pv == patches_view(patches@),
            lookup_patch(pv, (mime@, data@)) == lookup_patch(
                pv.subrange(i as int, pv.len() as int),
                (mime@, data@),
            ),
        decreases patches.len() - i,
    {
        proof {
            let rest = pv.subrange(i as int, pv.len() as int);
            assert(rest.drop_first() =~= pv.subrange(i + 1, pv.len() as int));
            assert(rest[0] == patch_view(patches@[i as int]));
        }
        if entry_eq(&patches[i].entry, mime, data) {
            return Some(&patches[i]);
        }
        i += 1;
    }
    None
}

/// The patched `inlineData` members.
pub open spec fn patched_inline(
    inl: Seq<(Seq<char>, Json)>,
    nm: Option<Seq<char>>,
    nd: Seq<char>,
) -> Seq<(Seq<char>, Json)> {
    let with_mime = match nm {
        Some(x) => crate::json::field_insert(inl, "mimeType"@, Json::Str(x)),
        None => inl,
    };
    crate::json::field_insert(with_mime, "data"@, Json::Str(nd))
}

fn patched_inline_exec(inl: &Vec<(String, JsonValue)>, p: &InlineDataPatch) -> (r: Vec<
    (String, JsonValue),
>)
    ensures
        model_fields(r@) == patched_inline(model_fields(inl@), patch_view(*p).1, p.data@),
{
    let mut new_inl = crate::json::clone_fields(inl);
    match &p.mime_type {
        Some(x) => {
            crate::json::fields_insert(&mut new_inl, own("mimeType"), JsonValue::Str(x.clone()));
        },
        None => {},
    }
    crate::json::fields_insert(&mut new_inl, own("data"), JsonValue::Str(p.data.clone()));
    new_inl
}

#[verifier::rlimit(100)]
#[verifier::spinoff_prover]
fn own_patch_exec(fields: Vec<(String, JsonValue)>, patches: &[InlineDataPatch]) -> (r: Vec<
    (String, JsonValue),
>)
    ensures
        model_fields(r@) == own_patch(model_fields(fields@), patches_view(patches@)),
{
    reveal(own_patch);
    let mut fields = fields;
    let found = match fields_get_object(&fields, "inlineData") {
        Some(inl) => match (fields_get_str(inl, "data"), fields_get_str(inl, "mimeType")) {
            (Some(d), Some(m)) => match find_patch(patches, m, d) {
                Some(p) => Some(patched_inline_exec(inl, p)),
                None => None,
            },
            _ => None,
        },
        None => None,
    };
    match found {
        Some(new_inl) => {
            crate::json::fields_insert(&mut fields, own("inlineData"), JsonValue::Object(new_inl));
            fields
        },
        None => fields,
    }
}

#[verifier::loop_isolation(false)]
#[verifier::rlimit(100)]
#[verifier::spinoff_prover]
fn patch_value(v: &JsonValue, patches: &[InlineDataPatch]) -> (r: JsonValue)
    ensures
        r@ == patched(v@, patches_view(patches@)),
    decreases *v,
{
    let ghost pv = patches_view(patches@);
    match v {
        JsonValue::Object(fields) => {
            let ghost mf = model_fields(fields@);
            proof {
                lemma_model_fields_all(fields@);
            }
            let mut out: Vec<(String, JsonValue)> = Vec::new();
            let mut i: usize = 0;
            proof {
                assert(mf.subrange(0, 0) =~= Seq::<(Seq<char>, Json)>::empty());
                lemma_model_fields_ext(out@, Seq::empty());
            }
            while i < fields.len()
                invariant
                    0 <= i <= fields.len(),
                    out@.len() == i,
                    model_fields(out@) == patched_fields(mf.subrange(0, i as int), pv),
                decreases fields.len() - i,
            {
                proof {
                    assert(decreases_to!(*v => fields@[i as int].1));
                    let sub = mf.subrange(0, i + 1);
                    assert(sub.subrange(0, sub.len() - 1) =~= mf.subrange(0, i as int));
                    assert(sub[sub.len() - 1] == mf[i as int]);
                }
                let child = patch_value(&fields[i].1, patches);
                let ghost before = out@;
                out.push((fields[i].0.clone(), child));
                proof {
                    lemma_model_fields_all(before);
                    lemma_model_fields_ext(out@, patched_fields(mf.subrange(0, i + 1), pv));
                }
                i += 1;
            }
            proof {
                assert(mf.subrange(0, fields@.len() as int) =~= mf);
            }
            JsonValue::Object(own_patch_exec(out, patches))
        },
        JsonValue::Array(items) => {
            let ghost ms = model_seq(items@);
            proof {
                lemma_model_seq_all(items@);
            }
            let mut out: Vec<JsonValue> = Vec::new();
            let mut i: usize = 0;
            proof {
                assert(ms.subrange(0, 0) =~= Seq::<Json>::empty());
                lemma_model_seq_ext(out@, Seq::empty());
            }
            while i < items.len()
                invariant
                    0 <= i <= items.len(),
                    out@.len() == i,
                    model_seq(out@) == patched_items(ms.subrange(0, i as int), pv),
                decreases items.len() - i,
            {
                proof {
                    assert(decreases_to!(*v => items@[i as int]));
                    let sub = ms.subrange(0, i + 1);
                    assert(sub.subrange(0, sub.len() - 1) =~= ms.subrange(0, i as int));
                    assert(sub[sub.len() - 1] == ms[i as int]);
                }
                let child = patch_value(&items[i], patches);
                let ghost before = out@;
                out.push(child);
                proof {
                    lemma_model_seq_all(before);
                    lemma_model_seq_ext(out@, patched_items(ms.subrange(0, i + 1), pv));
                }
                i += 1;
            }
            proof {
                assert(ms.subrange(0, items@.len() as int) =~= ms);
            }
            JsonValue::Array(out)
        },
        _ => v.deep_clone(),
    }
}

/// Replaces every inline image that a patch names; the first patch for an
/// image wins.
pub fn patch_inline_data(node: &mut JsonValue, patches: &[InlineDataPatch])
    ensures
        final(node)@ == patched(old(node)@, patches_view(patches@)),
{
    let patched_value = patch_value(node, patches);
    *node = patched_value;
}

} // verus!
