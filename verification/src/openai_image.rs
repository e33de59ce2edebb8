//! OpenAI style image generation: the request as the upstream takes it and
//! the response the proxy returns (uploaded image URLs, a creation time and
//! fixed usage figures).
use vstd::prelude::*;

use crate::json::{as_i64, as_str, field_get, field_insert, field_remove, fields_get, fields_insert, fields_remove, get, lemma_model_fields_ext, lemma_model_seq_all, lemma_model_seq_ext, model, model_fields, model_seq, Json, JsonValue};
use crate::text::{chars_of, concat, lower, lower_vec, own, trim, trim_str, vec_is};
use crate::urls::{parse_url, url_parse_outcome};

verus! {

/// An image the proxy uploaded, as the response lists it.
#[derive(Clone, Debug, PartialEq, Eq)]
pub struct UploadedImage {
    pub url: String,
}

pub open spec fn MSG_NOT_OBJECT() -> Seq<char> {
    "请求内容必须是 JSON 对象，请检查后再试"@
}

pub open spec fn MSG_FORMAT() -> Seq<char> {
    "response_format 只支持 url，请调整后再试"@
}

pub open spec fn MSG_NOT_URL() -> Seq<char> {
    "参考图片必须是完整 URL"@
}

pub open spec fn MSG_SCHEME() -> Seq<char> {
    "参考图片 URL 必须使用 http 或 https"@
}

pub open spec fn MSG_NO_HOST() -> Seq<char> {
    "参考图片 URL 缺少主机名，请检查后再试"@
}

// ---------------------------------------------------------------------
// Reference images
// ---------------------------------------------------------------------
/// Why a reference image URL is refused: it does not parse, its scheme is
/// not HTTP(S), or it has no host.
#[verifier::opaque]
pub open spec fn reference_url_error(raw: Seq<char>) -> Option<Seq<char>> {
    match url_parse_outcome(raw) {
        Err(_) => Some(MSG_NOT_URL()),
        Ok(p) => if p.0 != "http"@ && p.0 != "https"@ {
            Some(MSG_SCHEME())
        } else if trim(
            match p.1 {
                Some(h) => h,
                None => Seq::empty(),
            },
        ).len() == 0 {
            Some(MSG_NO_HOST())
        } else {
            None
        },
    }
}

fn validate_reference_image_url(raw: &str) -> (r: Result<(), String>)
    ensures
        match r {
            Ok(()) => reference_url_error(raw@) is None,
            Err(e) => reference_url_error(raw@) == Some(e@),
        },
{
    reveal(reference_url_error);
    let parsed = match parse_url(raw) {
        Ok(p) => p,
        Err(_) => {
            return Err(own("参考图片必须是完整 URL"));
        },
    };
    let sv = chars_of(parsed.scheme.as_str());
    if !vec_is(&sv, "http") && !vec_is(&sv, "https") {
        return Err(own("参考图片 URL 必须使用 http 或 https"));
    }
    let host = match &parsed.host {
        Some(h) => trim_str(h.as_str()),
        None => String::new(),
    };
    if host.as_str().is_empty() {
        return Err(own("参考图片 URL 缺少主机名，请检查后再试"));
    }
    Ok(())
}

/// The image URLs of one alias field's value, or the error message.
pub open spec fn alias_images(alias: Seq<char>, v: Json) -> Result<Seq<Seq<char>>, Seq<char>> {
    match v {
        Json::Array(items) => alias_items(alias, items),
        _ => Err(alias + " 必须是数组，请检查后再试"@),
    }
}

pub open spec fn alias_items(alias: Seq<char>, items: Seq<Json>) -> Result<Seq<Seq<char>>, Seq<char>>
    decreases items.len(),
{
    if items.len() == 0 {
        Ok(Seq::empty())
    } else {
        match alias_items(alias, items.drop_last()) {
            Err(e) => Err(e),
            Ok(prev) => match items.last() {
                Json::Str(s) => match reference_url_error(s) {
                    Some(e) => Err(e),
                    None => Ok(prev.push(s)),
                },
                _ => Err(alias + " 中的图片地址必须是字符串"@),
            },
        }
    }
}

/// A refused item refuses the whole list.
proof fn lemma_alias_items_err(alias: Seq<char>, items: Seq<Json>, k: int, e: Seq<char>)
    requires
        0 <= k <= items.len(),
        alias_items(alias, items.take(k)) == Err::<Seq<Seq<char>>, Seq<char>>(e),
    ensures
        alias_items(alias, items) == Err::<Seq<Seq<char>>, Seq<char>>(e),
    decreases items.len() - k,
{
    if k < items.len() {
        assert(items.take(k + 1).drop_last() =~= items.take(k));
        lemma_alias_items_err(alias, items, k + 1, e);
    } else {
        assert(items.take(k) =~= items);
    }
}

#[verifier::rlimit(100)]
#[verifier::spinoff_prover]
fn alias_images_exec(alias: &str, v: &JsonValue) -> (r: Result<Vec<String>, String>)
    ensures
        match r {
            Ok(u) => alias_images(alias@, v@) == Ok::<_, Seq<char>>(crate::text::strs_view(u@)),
            Err(e) => alias_images(alias@, v@) == Err::<Seq<Seq<char>>, _>(e@),
        },
{
    let items = match v {
        JsonValue::Array(items) => items,
        _ => {
            return Err(concat(alias, " 必须是数组，请检查后再试"));
        },
    };
    let ghost ms = model_seq(items@);
    let mut out: Vec<String> = Vec::new();
    proof {
        lemma_model_seq_all(items@);
        assert(ms.take(0) =~= Seq::<Json>::empty());
        assert(crate::text::strs_view(out@) =~= Seq::<Seq<char>>::empty());
        assert(v@ == Json::Array(ms));
    }
    let mut i: usize = 0;
    while i < items.len()
        invariant
            0 <= i <= items.len(),
            ms == model_seq(items@),
            v@ == Json::Array(ms),
            ms.len() == items@.len(),
            forall|k: int| 0 <= k < items@.len() ==> #[trigger] ms[k] == model(items@[k]),
            alias_items(alias@, ms.take(i as int)) == Ok::<_, Seq<char>>(
                crate::text::strs_view(out@),
            ),
        decreases items.len() - i,
    {
        proof {
            assert(ms.take(i + 1).drop_last() =~= ms.take(i as int));
            assert(ms.take(i + 1).last() == ms[i as int]);
        }
        match &items[i] {
            JsonValue::Str(s) => {
                match validate_reference_image_url(s.as_str()) {
                    Ok(()) => {},
                    Err(e) => {
                        proof {
                            lemma_alias_items_err(alias@, ms, i + 1, e@);
                        }
                        return Err(e);
                    },
                }
                let ghost before = out@;
                out.push(s.clone());
                proof {
                    assert(crate::text::strs_view(out@) =~= crate::text::strs_view(before).push(s@));
                }
            },
            _ => {
                let e = concat(alias, " 中的图片地址必须是字符串");
                proof {
                    lemma_alias_items_err(alias@, ms, i + 1, e@);
                }
                return Err(e);
            },
        }
        i += 1;
    }
    proof {
        assert(ms.take(items@.len() as int) =~= ms);
    }
    Ok(out)
}

/// One alias field taken out of the request: its images join the list.
pub open spec fn take_alias(
    fs: Seq<(Seq<char>, Json)>,
    alias: Seq<char>,
    acc: Seq<Seq<char>>,
) -> Result<(Seq<(Seq<char>, Json)>, Seq<Seq<char>>), Seq<char>> {
    match field_get(fs, alias) {
        None => Ok((fs, acc)),
        Some(v) => match alias_images(alias, v) {
            Err(e) => Err(e),
            Ok(imgs) => Ok((field_remove(fs, alias), acc + imgs)),
        },
    }
}

/// The three alias fields taken out in turn, their images gathered.
#[verifier::opaque]
pub open spec fn gather_images(fs: Seq<(Seq<char>, Json)>) -> Result<
    (Seq<(Seq<char>, Json)>, Seq<Seq<char>>),
    Seq<char>,
> {
    match take_alias(fs, "reference_images"@, Seq::empty()) {
        Err(e) => Err(e),
        Ok((f1, a1)) => match take_alias(f1, "images"@, a1) {
            Err(e) => Err(e),
            Ok((f2, a2)) => take_alias(f2, "image"@, a2),
        },
    }
}

pub open spec fn str_items(s: Seq<Seq<char>>) -> Seq<Json> {
    s.map_values(|u: Seq<char>| Json::Str(u))
}

/// The request the upstream receives: the reference images of every alias
/// (`reference_images`, `images`, `image`) gathered under
/// `reference_images`, and `response_format` set to `b64_json`; or the
/// message of the refusal.
pub open spec fn spec_normalize_request(body: Json) -> Result<Json, Seq<char>> {
    match body {
        Json::Object(fs) => {
            let fmt = match as_str(field_get(fs, "response_format"@)) {
                Some(f) => f,
                None => "url"@,
            };
            if lower(fmt) != "url"@ {
                Err(MSG_FORMAT())
            } else {
                match gather_images(fs) {
                    Err(e) => Err(e),
                    Ok((f3, a3)) => {
                        let any = field_get(fs, "reference_images"@) is Some || field_get(
                            fs,
                            "images"@,
                        ) is Some || field_get(fs, "image"@) is Some;
                        let f4 = if any {
                            field_insert(f3, "reference_images"@, Json::Array(str_items(a3)))
                        } else {
                            f3
                        };
                        Ok(Json::Object(field_insert(f4, "response_format"@, Json::Str("b64_json"@))))
                    },
                }
            }
        },
        _ => Err(MSG_NOT_OBJECT()),
    }
}

#[verifier::rlimit(100)]
#[verifier::spinoff_prover]
fn take_alias_exec(fields: &mut Vec<(String, JsonValue)>, alias: &str, acc: &mut Vec<String>) -> (r:
    Result<(), String>)
    ensures
        match r {
            Ok(()) => take_alias(
                model_fields(old(fields)@),
                alias@,
                crate::text::strs_view(old(acc)@),
            ) == Ok::<_, Seq<char>>(
                (model_fields(final(fields)@), crate::text::strs_view(final(acc)@)),
            ),
            Err(e) => take_alias(
                model_fields(old(fields)@),
                alias@,
                crate::text::strs_view(old(acc)@),
            ) == Err::<(Seq<(Seq<char>, Json)>, Seq<Seq<char>>), _>(e@),
        },
{
    let removed = fields_remove(fields, alias);
    match removed {
        None => Ok(()),
        Some(v) => {
            let imgs = alias_images_exec(alias, &v)?;
            let ghost before = acc@;
            let mut i: usize = 0;
            while i < imgs.len()
                invariant
                    0 <= i <= imgs.len(),
                    crate::text::strs_view(acc@) == crate::text::strs_view(before)
                        + crate::text::strs_view(imgs@).take(i as int),
                decreases imgs.len() - i,
            {
                let ghost prev = acc@;
                acc.push(imgs[i].clone());
                proof {
                    assert(crate::text::strs_view(imgs@).take(i + 1) =~= crate::text::strs_view(
                        imgs@,
                    ).take(i as int).push(imgs@[i as int]@));
                    assert(crate::text::strs_view(acc@) =~= crate::text::strs_view(prev).push(
                        imgs@[i as int]@,
                    ));
                }
                i += 1;
            }
            proof {
                assert(crate::text::strs_view(imgs@).take(imgs@.len() as int)
                    =~= crate::text::strs_view(imgs@));
            }
            Ok(())
        },
    }
}

fn gather_images_exec(fields: &mut Vec<(String, JsonValue)>) -> (r: Result<Vec<String>, String>)
    ensures
        match r {
            Ok(imgs) => gather_images(model_fields(old(fields)@)) == Ok::<_, Seq<char>>(
                (model_fields(final(fields)@), crate::text::strs_view(imgs@)),
            ),
            Err(e) => gather_images(model_fields(old(fields)@)) == Err::<
                (Seq<(Seq<char>, Json)>, Seq<Seq<char>>),
                _,
            >(e@),
        },
{
    reveal(gather_images);
    let mut images: Vec<String> = Vec::new();
    assert(crate::text::strs_view(images@) =~= Seq::<Seq<char>>::empty());
    match take_alias_exec(fields, "reference_images", &mut images) {
        Ok(()) => {},
        Err(e) => {
            return Err(e);
        },
    }
    match take_alias_exec(fields, "images", &mut images) {
        Ok(()) => {},
        Err(e) => {
            return Err(e);
        },
    }
    match take_alias_exec(fields, "image", &mut images) {
        Ok(()) => {},
        Err(e) => {
            return Err(e);
        },
    }
    Ok(images)
}

/// The request body that the upstream receives for an OpenAI style image
/// request, or the message of the refusal.
#[verifier::rlimit(100)]
#[verifier::spinoff_prover]
pub fn normalize_request_body(body: JsonValue) -> (r: Result<JsonValue, String>)
    ensures
        match r {
            Ok(v) => spec_normalize_request(body@) == Ok::<Json, Seq<char>>(v@),
            Err(e) => spec_normalize_request(body@) == Err::<Json, Seq<char>>(e@),
        },
{
    let ghost b = body@;
    let mut fields = match body {
        JsonValue::Object(fields) => fields,
        _ => {
            return Err(own("请求内容必须是 JSON 对象，请检查后再试"));
        },
    };
    let ghost fs = model_fields(fields@);
    let ok_format = match fields_get_str_ref(&fields, "response_format") {
        Some(f) => {
            let fv = chars_of(f.as_str());
            let l = lower_vec(&fv);
            vec_is(&l, "url")
        },
        None => {
            proof {
                reveal_strlit("url");
                assert(lower("url"@) =~= "url"@);
            }
            true
        },
    };
    if !ok_format {
        return Err(own("response_format 只支持 url，请调整后再试"));
    }
    let any = fields_get(&fields, "reference_images").is_some() || fields_get(&fields, "images").is_some()
        || fields_get(&fields, "image").is_some();
    let images = match gather_images_exec(&mut fields) {
        Ok(i) => i,
        Err(e) => {
            return Err(e);
        },
    };
    if any {
        let mut items: Vec<JsonValue> = Vec::new();
        let mut i: usize = 0;
        while i < images.len()
            invariant
                0 <= i <= images.len(),
                items@.len() == i,
                forall|k: int| 0 <= k < i ==> #[trigger] model(items@[k]) == Json::Str(images@[k]@),
            decreases images.len() - i,
        {
            items.push(JsonValue::Str(images[i].clone()));
            i += 1;
        }
        proof {
            lemma_model_seq_ext(items@, str_items(crate::text::strs_view(images@)));
        }
        fields_insert(&mut fields, own("reference_images"), JsonValue::Array(items));
    }
    fields_insert(&mut fields, own("response_format"), JsonValue::Str(own("b64_json")));
    Ok(JsonValue::Object(fields))
}

fn fields_get_str_ref<'a>(fields: &'a Vec<(String, JsonValue)>, key: &str) -> (r: Option<&'a String>)
    ensures
        match r {
            Some(s) => as_str(field_get(model_fields(fields@), key@)) == Some(s@),
            None => as_str(field_get(model_fields(fields@), key@)) is None,
        },
{
    match fields_get(fields, key) {
        Some(JsonValue::Str(s)) => Some(s),
        _ => None,
    }
}

// ---------------------------------------------------------------------
// The response
// ---------------------------------------------------------------------
pub open spec fn num(t: Seq<char>) -> Json {
    Json::Number(t)
}

/// The usage figures every response reports.
pub open spec fn fixed_usage() -> Json {
    Json::Object(
        seq![
            ("input_tokens"@, num("1024"@)),
            (
                "input_tokens_details"@,
                Json::Object(
                    seq![("image_tokens"@, num("1000"@)), ("text_tokens"@, num("24"@))],
                ),
            ),
            ("output_tokens"@, num("1024"@)),
            ("total_tokens"@, num("2048"@)),
            (
                "output_tokens_details"@,
                Json::Object(seq![("image_tokens"@, num("1024"@)), ("text_tokens"@, num("0"@))]),
            ),
        ],
    )
}

fn number(t: &str) -> (r: JsonValue)
    ensures
        r@ == num(t@),
{
    JsonValue::Number(own(t))
}

fn pair(k: &str, v: JsonValue) -> (r: (String, JsonValue))
    ensures
        r.0@ == k@,
        r.1 == v,
{
    (own(k), v)
}

/// The fixed usage figures of a response.
pub fn build_fixed_usage() -> (r: JsonValue)
    ensures
        r@ == fixed_usage(),
{
    let mut inner1: Vec<(String, JsonValue)> = Vec::new();
    inner1.push(pair("image_tokens", number("1000")));
    inner1.push(pair("text_tokens", number("24")));
    let mut inner2: Vec<(String, JsonValue)> = Vec::new();
    inner2.push(pair("image_tokens", number("1024")));
    inner2.push(pair("text_tokens", number("0")));
    proof {
        lemma_model_fields_ext(
            inner1@,
            seq![("image_tokens"@, num("1000"@)), ("text_tokens"@, num("24"@))],
        );
        lemma_model_fields_ext(
            inner2@,
            seq![("image_tokens"@, num("1024"@)), ("text_tokens"@, num("0"@))],
        );
    }
    let ghost i1 = model_fields(inner1@);
    let ghost i2 = model_fields(inner2@);
    let mut fs: Vec<(String, JsonValue)> = Vec::new();
    fs.push(pair("input_tokens", number("1024")));
    fs.push(pair("input_tokens_details", JsonValue::Object(inner1)));
    fs.push(pair("output_tokens", number("1024")));
    fs.push(pair("total_tokens", number("2048")));
    fs.push(pair("output_tokens_details", JsonValue::Object(inner2)));
    proof {
        lemma_model_fields_ext(
            fs@,
            seq![
                ("input_tokens"@, num("1024"@)),
                ("input_tokens_details"@, Json::Object(i1)),
                ("output_tokens"@, num("1024"@)),
                ("total_tokens"@, num("2048"@)),
                ("output_tokens_details"@, Json::Object(i2)),
            ],
        );
    }
    JsonValue::Object(fs)
}

/// `{"url": ...}` for each uploaded image.
pub open spec fn uploaded_items(u: Seq<UploadedImage>) -> Seq<Json> {
    u.map_values(|x: UploadedImage| Json::Object(seq![("url"@, Json::Str(x.url@))]))
}

/// The response: the creation time, the uploaded images and the usage.
pub open spec fn response_payload(uploaded: Seq<UploadedImage>, created: i64) -> Json {
    Json::Object(
        seq![
            ("created"@, num(crate::text::int_text(created as int))),
            ("data"@, Json::Array(uploaded_items(uploaded))),
            ("usage"@, fixed_usage()),
        ],
    )
}

/// The response for the uploaded images and a creation time.
pub fn build_response_payload_from_uploaded(uploaded: &[UploadedImage], created: i64) -> (r:
    JsonValue)
    ensures
        r@ == response_payload(uploaded@, created),
{
    let mut items: Vec<JsonValue> = Vec::new();
    let mut i: usize = 0;
    while i < uploaded.len()
        invariant
            0 <= i <= uploaded.len(),
            items@.len() == i,
            forall|k: int|
                0 <= k < i ==> #[trigger] model(items@[k]) == uploaded_items(uploaded@)[k],
        decreases uploaded.len() - i,
    {
        let mut f: Vec<(String, JsonValue)> = Vec::new();
        f.push(pair("url", JsonValue::Str(uploaded[i].url.clone())));
        proof {
            lemma_model_fields_ext(f@, seq![("url"@, Json::Str(uploaded@[i as int].url@))]);
        }
        items.push(JsonValue::Object(f));
        i += 1;
    }
    proof {
        lemma_model_seq_ext(items@, uploaded_items(uploaded@));
    }
    let ghost iv = model_seq(items@);
    let created_text = crate::text::i64_to_decimal(created);
    let usage = build_fixed_usage();
    let mut fs: Vec<(String, JsonValue)> = Vec::new();
    fs.push(pair("created", JsonValue::Number(created_text)));
    fs.push(pair("data", JsonValue::Array(items)));
    fs.push(pair("usage", usage));
    proof {
        lemma_model_fields_ext(
            fs@,
            seq![
                ("created"@, num(crate::text::int_text(created as int))),
                ("data"@, Json::Array(iv)),
                ("usage"@, fixed_usage()),
            ],
        );
    }
    JsonValue::Object(fs)
}

/// The response for an upstream answer: its creation time (or the
/// fallback), the uploaded images and the usage. It does not fail.
pub fn build_response_payload(
    upstream_body: JsonValue,
    uploaded: &[UploadedImage],
    fallback_created: i64,
) -> (r: Result<JsonValue, String>)
    ensures
        r matches Ok(v) && v@ == response_payload(
            uploaded@,
            spec_created_timestamp(upstream_body@, fallback_created),
        ),
{
    let created = extract_created_timestamp(&upstream_body, fallback_created);
    Ok(build_response_payload_from_uploaded(uploaded, created))
}

/// The Unix time of a `YYYY-MM-DD hh:mm:ss` text read as UTC, as
/// `time::PrimitiveDateTime::parse` and `assume_utc().unix_timestamp()`
/// give it; `None` when the text does not parse.
pub uninterp spec fn utc_timestamp_of(text: Seq<char>) -> Option<i64>;

/// Calls `time::PrimitiveDateTime::parse` with the format
/// `[year]-[month]-[day] [hour]:[minute]:[second]`, then
/// `assume_utc().unix_timestamp()`; the outcome is named
/// `utc_timestamp_of`.
#[verifier::external_body]
fn parse_utc_timestamp(text: &str) -> (r: Option<i64>)
    ensures
        r == utc_timestamp_of(text@),
{
    let format = time::format_description::parse_borrowed::<1>(
        "[year]-[month]-[day] [hour]:[minute]:[second]",
    ).ok()?;
    let parsed = time::PrimitiveDateTime::parse(text, &format).ok()?;
    Some(parsed.assume_utc().unix_timestamp())
}

pub open spec fn time_field(body: Json, key: Seq<char>) -> Option<i64> {
    match as_str(get(body, key)) {
        Some(raw) => utc_timestamp_of(trim(raw)),
        None => None,
    }
}

/// The creation time of an upstream answer: `created`, else the first of
/// `finishedTime`, `submittedTime`, `createTime` that reads as a UTC
/// timestamp, else the fallback.
pub open spec fn spec_created_timestamp(body: Json, fallback: i64) -> i64 {
    match as_i64(get(body, "created"@)) {
        Some(c) => c as i64,
        None => match time_field(body, "finishedTime"@) {
            Some(t) => t,
            None => match time_field(body, "submittedTime"@) {
                Some(t) => t,
                None => match time_field(body, "createTime"@) {
                    Some(t) => t,
                    None => fallback,
                },
            },
        },
    }
}

fn time_field_exec(body: &JsonValue, key: &str) -> (r: Option<i64>)
    ensures
        r == time_field(body@, key@),
{
    match body.get_str(key) {
        Some(raw) => {
            let t = trim_str(raw.as_str());
            parse_utc_timestamp(t.as_str())
        },
        None => None,
    }
}

/// The creation time of an upstream answer, or the fallback.
pub fn extract_created_timestamp(upstream_body: &JsonValue, fallback_created: i64) -> (r: i64)
    ensures
        r == spec_created_timestamp(upstream_body@, fallback_created),
{
    let created = match upstream_body.get("created") {
        Some(v) => v.as_i64(),
        None => None,
    };
    if let Some(c) = created {
        return c;
    }
    if let Some(t) = time_field_exec(upstream_body, "finishedTime") {
        return t;
    }
    if let Some(t) = time_field_exec(upstream_body, "submittedTime") {
        return t;
    }
    if let Some(t) = time_field_exec(upstream_body, "createTime") {
        return t;
    }
    fallback_created
}

} // verus!
