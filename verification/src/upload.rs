//! Uploading images to an image host: which hosts to try, R2 object names
//! and URLs, the AWS SigV4 signature, and base64 payload helpers. The
//! requests themselves are sent by the caller.
use vstd::prelude::*;

use crate::crypto::{hex_encode, hex_lower, hmac_sha256, hmac_sha256_digest, sha256, sha256_digest, sha256_hex_text};
use crate::response_rewrite::{utf8_len, utf8_len_exec};
use crate::text::{chars_of, concat, decimal, ends_with, ends_with_vec, lower, lower_vec, own, split, split_vec, string_of, trim, trim_end_char, trim_end_char_vec, trim_start_char, trim_start_char_vec, trim_str, trim_vec, u64_to_decimal, utf8, vec_is};
use crate::urls::{form_urlencode, form_urlencoded_bytes, parse_url, replace_url_path, url_parse_outcome, url_path_replaced};

verus! {

pub const UPLOAD_USER_AGENT: &'static str = "ComfyUI-Banana/1.0";

/// Base64 characters decoded at a time when a payload is streamed.
pub const BASE64_STREAM_INPUT_CHARS: usize = 32768;

#[derive(Clone, Copy, Debug, PartialEq, Eq, Structural)]
pub enum ImageHostMode {
    Legacy,
    R2,
    R2ThenLegacy,
}

#[derive(Clone, Debug, PartialEq, Eq)]
pub struct UploadResult {
    pub url: String,
    pub provider: String,
}

/// `IMAGE_HOST_MODE`, trimmed and in lower case; empty means legacy.
pub open spec fn spec_host_mode(raw: Seq<char>) -> Result<ImageHostMode, Seq<char>> {
    let v = lower(trim(raw));
    if v.len() == 0 || v == "legacy"@ {
        Ok(ImageHostMode::Legacy)
    } else if v == "r2"@ {
        Ok(ImageHostMode::R2)
    } else if v == "r2_then_legacy"@ {
        Ok(ImageHostMode::R2ThenLegacy)
    } else {
        Err("unsupported IMAGE_HOST_MODE "@ + v)
    }
}

/// `IMAGE_HOST_MODE` is read trimmed and in any letter case: blank or
/// `legacy` is legacy, `r2` is R2, `r2_then_legacy` is R2 with the legacy
/// fallback, and any other value is refused.
pub proof fn law_host_mode_words(raw: Seq<char>)
    ensures
        lower(trim(raw)).len() == 0 || lower(trim(raw)) == "legacy"@ ==> spec_host_mode(raw) == Ok::<
            ImageHostMode,
            Seq<char>,
        >(ImageHostMode::Legacy),
        lower(trim(raw)) == "r2"@ ==> spec_host_mode(raw) == Ok::<ImageHostMode, Seq<char>>(
            ImageHostMode::R2,
        ),
        lower(trim(raw)) == "r2_then_legacy"@ ==> spec_host_mode(raw) == Ok::<
            ImageHostMode,
            Seq<char>,
        >(ImageHostMode::R2ThenLegacy),
        !(lower(trim(raw)).len() == 0 || lower(trim(raw)) == "legacy"@ || lower(trim(raw)) == "r2"@
            || lower(trim(raw)) == "r2_then_legacy"@) ==> spec_host_mode(raw) is Err,
{
    reveal_strlit("legacy");
    reveal_strlit("r2");
    reveal_strlit("r2_then_legacy");
}

pub fn parse_image_host_mode(raw: &str) -> (r: Result<ImageHostMode, String>)
    ensures
        match r {
            Ok(m) => spec_host_mode(raw@) == Ok::<ImageHostMode, Seq<char>>(m),
            Err(e) => spec_host_mode(raw@) == Err::<ImageHostMode, Seq<char>>(e@),
        },
{
    let v = chars_of(raw);
    let t = trim_vec(&v);
    let l = lower_vec(&t);
    if l.len() == 0 || vec_is(&l, "legacy") {
        Ok(ImageHostMode::Legacy)
    } else if vec_is(&l, "r2") {
        Ok(ImageHostMode::R2)
    } else if vec_is(&l, "r2_then_legacy") {
        Ok(ImageHostMode::R2ThenLegacy)
    } else {
        let s = string_of(&l);
        Err(concat("unsupported IMAGE_HOST_MODE ", s.as_str()))
    }
}

/// An image host.
#[derive(Clone, Copy, Debug, PartialEq, Eq, Structural)]
pub enum UploadTarget {
    R2,
    Uguu,
    Kefan,
}

/// The hosts to try, in order, until one accepts the image: legacy is
/// uguu then kefan; `r2_then_legacy` falls back to legacy when R2 fails.
pub open spec fn spec_upload_targets(mode: ImageHostMode) -> Seq<UploadTarget> {
    match mode {
        ImageHostMode::Legacy => seq![UploadTarget::Uguu, UploadTarget::Kefan],
        ImageHostMode::R2 => seq![UploadTarget::R2],
        ImageHostMode::R2ThenLegacy => seq![
            UploadTarget::R2,
            UploadTarget::Uguu,
            UploadTarget::Kefan,
        ],
    }
}

pub fn upload_targets(mode: ImageHostMode) -> (r: Vec<UploadTarget>)
    ensures
        r@ == spec_upload_targets(mode),
{
    let mut v: Vec<UploadTarget> = Vec::new();
    match mode {
        ImageHostMode::Legacy => {
            v.push(UploadTarget::Uguu);
            v.push(UploadTarget::Kefan);
        },
        ImageHostMode::R2 => {
            v.push(UploadTarget::R2);
        },
        ImageHostMode::R2ThenLegacy => {
            v.push(UploadTarget::R2);
            v.push(UploadTarget::Uguu);
            v.push(UploadTarget::Kefan);
        },
    }
    proof {
        assert(v@ =~= spec_upload_targets(mode));
    }
    v
}

/// What the upload loop does next.
pub enum UploadStep {
    /// Stop with this result.
    Done(UploadResult),
    /// Try the target at this index of the list.
    Next(usize),
    /// Every target failed: stop with the last error.
    Fail(String),
}

/// The upload fallback after the attempt at `targets[tried]`: a success
/// ends it; a failure moves to the next target, and after the last one
/// the last error is returned.
pub fn upload_fallback_step(
    targets: &[UploadTarget],
    tried: usize,
    outcome: Result<UploadResult, String>,
) -> (r: UploadStep)
    requires
        tried < targets@.len(),
    ensures
        match outcome {
            Ok(res) => r == UploadStep::Done(res),
            Err(e) => if tried + 1 < targets@.len() {
                r == UploadStep::Next((tried + 1) as usize)
            } else {
                r matches UploadStep::Fail(x) && x@ == e@
            },
        },
{
    match outcome {
        Ok(res) => UploadStep::Done(res),
        Err(e) => if tried < targets.len() - 1 {
            UploadStep::Next(tried + 1)
        } else {
            UploadStep::Fail(e)
        },
    }
}

/// The provider name an upload result carries.
pub open spec fn target_provider(t: UploadTarget) -> Seq<char> {
    match t {
        UploadTarget::R2 => "r2"@,
        _ => "legacy"@,
    }
}

pub fn upload_target_provider(t: UploadTarget) -> (r: &'static str)
    ensures
        r@ == target_provider(t),
{
    match t {
        UploadTarget::R2 => "r2",
        _ => "legacy",
    }
}

/// `prefix` (trimmed) followed by the form-urlencoded target.
pub open spec fn spec_wrap_external(prefix: Seq<char>, target: Seq<char>) -> Seq<char> {
    trim(prefix) + form_urlencoded_bytes(target)
}

pub fn wrap_external_proxy_url(external_proxy_prefix: &str, target_url: &str) -> (r: String)
    ensures
        r@ == spec_wrap_external(external_proxy_prefix@, target_url@),
{
    let encoded = form_urlencode(target_url);
    let p = trim_str(external_proxy_prefix);
    concat(p.as_str(), encoded.as_str())
}

/// The proxy's own image route for an uploaded URL:
/// `{public base}/proxy/image?url={form-urlencoded url}`.
pub open spec fn spec_wrap_proxy_url(public_base_url: Seq<char>, target: Seq<char>) -> Seq<char> {
    spec_wrap_external(trim_end_char(trim(public_base_url), '/') + "/proxy/image?url="@, target)
}

pub fn wrap_proxy_url(public_base_url: &str, target_url: &str) -> (r: String)
    ensures
        r@ == spec_wrap_proxy_url(public_base_url@, target_url@),
{
    let v = chars_of(public_base_url);
    let t = trim_vec(&v);
    let base = trim_end_char_vec(&t, '/');
    let b = string_of(&base);
    let prefix = concat(b.as_str(), "/proxy/image?url=");
    wrap_external_proxy_url(prefix.as_str(), target_url)
}

pub open spec fn spec_extension(mime: Seq<char>) -> Seq<char> {
    if mime == "image/jpeg"@ {
        ".jpg"@
    } else if mime == "image/webp"@ {
        ".webp"@
    } else if mime == "image/gif"@ {
        ".gif"@
    } else {
        ".png"@
    }
}

pub fn extension_from_mime(mime_type: &str) -> (r: &'static str)
    ensures
        r@ == spec_extension(mime_type@),
{
    let m = chars_of(mime_type);
    if vec_is(&m, "image/jpeg") {
        ".jpg"
    } else if vec_is(&m, "image/webp") {
        ".webp"
    } else if vec_is(&m, "image/gif") {
        ".gif"
    } else {
        ".png"
    }
}

// ---------------------------------------------------------------------
// Number formatting
// ---------------------------------------------------------------------
/// `n` zeros.
pub open spec fn zeros(n: nat) -> Seq<char>
    decreases n,
{
    if n == 0 {
        Seq::empty()
    } else {
        zeros((n - 1) as nat).push('0')
    }
}

/// `format!("{:0w}", v)` for a signed integer: the sign, then zeros up to
/// the width, then the digits.
pub open spec fn padded(v: int, w: nat) -> Seq<char> {
    let digits = decimal(if v < 0 {
        (-v) as nat
    } else {
        v as nat
    });
    let sign = if v < 0 {
        "-"@
    } else {
        Seq::empty()
    };
    let fill = if sign.len() + digits.len() < w {
        (w - sign.len() - digits.len()) as nat
    } else {
        0
    };
    sign + zeros(fill) + digits
}

/// `v.to_string()` for a signed integer.
pub open spec fn signed_decimal(v: int) -> Seq<char> {
    padded(v, 0)
}

fn zeros_exec(n: usize) -> (r: Vec<char>)
    ensures
        r@ == zeros(n as nat),
{
    let mut v: Vec<char> = Vec::new();
    let mut i: usize = 0;
    while i < n
        invariant
            0 <= i <= n,
            v@ == zeros(i as nat),
        decreases n - i,
    {
        v.push('0');
        i += 1;
    }
    v
}

fn magnitude_decimal(v: i128) -> (r: Vec<char>)
    ensures
        r@ == decimal(
            if v < 0 {
                (-v) as nat
            } else {
                v as nat
            },
        ),
{
    let m: u128 = if v < 0 {
        if v == i128::MIN {
            170141183460469231731687303715884105728u128
        } else {
            (-v) as u128
        }
    } else {
        v as u128
    };
    decimal_u128(m)
}

fn decimal_u128(n: u128) -> (r: Vec<char>)
    ensures
        r@ == decimal(n as nat),
    decreases n,
{
    let d = (n % 10) as u64;
    let c = chars_of(u64_to_decimal(d).as_str());
    proof {
        assert(decimal(d as nat) == seq![crate::text::digit_char(d as nat)]);
    }
    if n < 10 {
        c
    } else {
        let mut v = decimal_u128(n / 10);
        v.push(c[0]);
        v
    }
}

/// `format!("{:0w}", v)`.
pub fn format_padded(v: i128, w: usize) -> (r: String)
    ensures
        r@ == padded(v as int, w as nat),
{
    let digits = magnitude_decimal(v);
    let mut out: Vec<char> = Vec::new();
    if v < 0 {
        out.push('-');
    }
    let sign_len: usize = if v < 0 {
        1
    } else {
        0
    };
    let fill: usize = if digits.len() < w && sign_len < w - digits.len() {
        w - sign_len - digits.len()
    } else {
        0
    };
    let z = zeros_exec(fill);
    let mut i: usize = 0;
    let ghost base = out@;
    while i < z.len()
        invariant
            0 <= i <= z.len(),
            out@ == base + z@.subrange(0, i as int),
        decreases z.len() - i,
    {
        out.push(z[i]);
        assert(z@.subrange(0, i + 1) =~= z@.subrange(0, i as int).push(z@[i as int]));
        i += 1;
    }
    assert(z@.subrange(0, z.len() as int) =~= z@);
    let ghost mid = out@;
    let mut j: usize = 0;
    while j < digits.len()
        invariant
            0 <= j <= digits.len(),
            out@ == mid + digits@.subrange(0, j as int),
        decreases digits.len() - j,
    {
        out.push(digits[j]);
        assert(digits@.subrange(0, j + 1) =~= digits@.subrange(0, j as int).push(
            digits@[j as int],
        ));
        j += 1;
    }
    assert(digits@.subrange(0, digits.len() as int) =~= digits@);
    proof {
        if v < 0 {
            assert(base =~= "-"@) by {
                reveal_strlit("-");
            }
        } else {
            assert(base =~= Seq::<char>::empty());
        }
        if v < 0 {
            assert("-"@.len() == 1) by {
                reveal_strlit("-");
            }
        }
        assert(out@ =~= padded(v as int, w as nat));
    }
    string_of(&out)
}

/// Rust's `/` on integers: the quotient rounded toward zero.
pub open spec fn div_toward_zero(a: int, b: int) -> int {
    if a >= 0 {
        a / b
    } else {
        -((-a) / b)
    }
}

// ---------------------------------------------------------------------
// R2 objects
// ---------------------------------------------------------------------
/// The object prefix: trimmed, without leading or trailing `/`, `images`
/// when empty.
pub open spec fn object_prefix(prefix: Seq<char>) -> Seq<char> {
    let p = trim_end_char(trim_start_char(trim(prefix), '/'), '/');
    if p.len() == 0 {
        "images"@
    } else {
        p
    }
}

/// A year as the `time` crate writes `[year]`: the sign of a negative
/// year, then at least four digits.
pub open spec fn year4(y: int) -> Seq<char> {
    if y < 0 {
        "-"@ + padded(-y, 4)
    } else {
        padded(y, 4)
    }
}

/// `[year][month][day]`, the date stamp of a signature.
pub open spec fn spec_date_stamp(year: i32, month: u8, day: u8) -> Seq<char> {
    year4(year as int) + padded(month as int, 2) + padded(day as int, 2)
}

/// `[year][month][day]T[hour][minute][second]Z`, the `X-Amz-Date` header.
pub open spec fn spec_amz_date(year: i32, month: u8, day: u8, hour: u8, minute: u8, second: u8) -> Seq<
    char,
> {
    spec_date_stamp(year, month, day) + "T"@ + padded(hour as int, 2) + padded(minute as int, 2)
        + padded(second as int, 2) + "Z"@
}

/// The `X-Amz-Date` value and the date stamp of an R2 signature, from the
/// UTC time of the upload, as the `time` crate formats them.
pub fn amz_date_and_stamp(year: i32, month: u8, day: u8, hour: u8, minute: u8, second: u8) -> (r: (
    String,
    String,
))
    ensures
        r.0@ == spec_amz_date(year, month, day, hour, minute, second),
        r.1@ == spec_date_stamp(year, month, day),
{
    let y = if year < 0 {
        let m = format_padded(-(year as i128), 4);
        concat("-", m.as_str())
    } else {
        format_padded(year as i128, 4)
    };
    let mo = format_padded(month as i128, 2);
    let d = format_padded(day as i128, 2);
    let a = concat(y.as_str(), mo.as_str());
    let stamp = concat(a.as_str(), d.as_str());
    let h = format_padded(hour as i128, 2);
    let mi = format_padded(minute as i128, 2);
    let se = format_padded(second as i128, 2);
    let b = concat(stamp.as_str(), "T");
    let c = concat(b.as_str(), h.as_str());
    let e = concat(c.as_str(), mi.as_str());
    let f = concat(e.as_str(), se.as_str());
    let amz = concat(f.as_str(), "Z");
    (amz, stamp)
}

/// The host an R2 signature names: the endpoint's host (empty when it has
/// none), or the endpoint's parse error.
pub fn r2_endpoint_host(endpoint: &str) -> (r: Result<String, String>)
    ensures
        match url_parse_outcome(endpoint@) {
            Err(e) => r matches Err(x) && x@ == e,
            Ok(p) => r matches Ok(h) && h@ == (match p.1 {
                Some(x) => x,
                None => Seq::empty(),
            }),
        },
{
    match parse_url(endpoint) {
        Err(e) => Err(e),
        Ok(p) => match p.host {
            Some(h) => Ok(h),
            None => Ok(String::new()),
        },
    }
}

/// `{prefix}/{yyyy}/{mm}/{dd}/{unix ms}-{random}.{ext}`.
pub open spec fn spec_r2_object_key(
    prefix: Seq<char>,
    mime: Seq<char>,
    year: i32,
    month: u8,
    day: u8,
    unix_nanos: i128,
    random_hex: Seq<char>,
) -> Seq<char> {
    object_prefix(prefix) + "/"@ + padded(year as int, 4) + "/"@ + padded(month as int, 2) + "/"@
        + padded(day as int, 2) + "/"@ + signed_decimal(div_toward_zero(unix_nanos as int, 1000000))
        + "-"@ + random_hex + "."@ + trim_start_char(spec_extension(mime), '.')
}

/// The object key of an uploaded image, from the UTC date, the time in
/// nanoseconds since the epoch and a random suffix.
pub fn build_r2_object_key(
    prefix: &str,
    mime_type: &str,
    year: i32,
    month: u8,
    day: u8,
    unix_nanos: i128,
    random_hex: String,
) -> (r: String)
    ensures
        r@ == spec_r2_object_key(prefix@, mime_type@, year, month, day, unix_nanos, random_hex@),
{
    let pv = chars_of(prefix);
    let t = trim_vec(&pv);
    let a = trim_start_char_vec(&t, '/');
    let b = trim_end_char_vec(&a, '/');
    let p = if b.len() == 0 {
        own("images")
    } else {
        string_of(&b)
    };
    let millis: i128 = if unix_nanos >= 0 {
        ((unix_nanos as u128) / 1000000) as i128
    } else {
        let m: u128 = if unix_nanos == i128::MIN {
            170141183460469231731687303715884105728u128
        } else {
            (-unix_nanos) as u128
        };
        -((m / 1000000) as i128)
    };
    let ext = extension_from_mime(mime_type);
    let ev = chars_of(ext);
    let ext_trimmed = trim_start_char_vec(&ev, '.');
    let mut s = concat(p.as_str(), "/");
    s = concat(s.as_str(), format_padded(year as i128, 4).as_str());
    s = concat(s.as_str(), "/");
    s = concat(s.as_str(), format_padded(month as i128, 2).as_str());
    s = concat(s.as_str(), "/");
    s = concat(s.as_str(), format_padded(day as i128, 2).as_str());
    s = concat(s.as_str(), "/");
    s = concat(s.as_str(), format_padded(millis, 0).as_str());
    s = concat(s.as_str(), "-");
    s = concat(s.as_str(), random_hex.as_str());
    s = concat(s.as_str(), ".");
    s = concat(s.as_str(), string_of(&ext_trimmed).as_str());
    s
}

/// The form-urlencoded pieces of a key, joined by `/`.
pub open spec fn encode_segments(parts: Seq<Seq<char>>) -> Seq<char>
    decreases parts.len(),
{
    if parts.len() == 0 {
        Seq::empty()
    } else if parts.len() == 1 {
        form_urlencoded_bytes(parts[0])
    } else {
        encode_segments(parts.drop_last()) + "/"@ + form_urlencoded_bytes(parts.last())
    }
}

/// The object URL and the canonical URI that the signature covers:
/// `{endpoint path}/{bucket}/{key}` on the endpoint, and
/// `/{bucket}/{key}` with each piece form-urlencoded.
pub open spec fn spec_r2_object_url(endpoint: Seq<char>, bucket: Seq<char>, key: Seq<char>) -> Result<
    (Seq<char>, Seq<char>),
    Seq<char>,
> {
    let b = trim(bucket);
    let k = trim_start_char(trim(key), '/');
    let canonical = "/"@ + form_urlencoded_bytes(b) + "/"@ + encode_segments(split(k, '/'));
    match url_parse_outcome(endpoint) {
        Err(e) => Err(e),
        Ok(p) => match url_path_replaced(endpoint, trim_end_char(p.4, '/') + "/"@ + b + "/"@ + k) {
            Some(u) => Ok((u, canonical)),
            None => Err(INVALID_ENDPOINT_MESSAGE()),
        },
    }
}

pub open spec fn INVALID_ENDPOINT_MESSAGE() -> Seq<char> {
    "invalid R2 endpoint"@
}

pub fn build_r2_object_url(endpoint: &str, bucket: &str, key: &str) -> (r: Result<
    (String, String),
    String,
>)
    ensures
        match r {
            Ok((u, c)) => spec_r2_object_url(endpoint@, bucket@, key@) == Ok::<
                (Seq<char>, Seq<char>),
                Seq<char>,
            >((u@, c@)),
            Err(e) => spec_r2_object_url(endpoint@, bucket@, key@) == Err::<
                (Seq<char>, Seq<char>),
                Seq<char>,
            >(e@),
        },
{
    let b = trim_str(bucket);
    let kv = chars_of(key);
    let kt = trim_vec(&kv);
    let k = trim_start_char_vec(&kt, '/');
    let pieces = split_vec(&k, '/');
    let mut joined = String::new();
    let mut i: usize = 0;
    proof {
        assert(split(k@, '/').subrange(0, 0) =~= Seq::<Seq<char>>::empty());
    }
    while i < pieces.len()
        invariant
            0 <= i <= pieces.len(),
            pieces@.len() == split(k@, '/').len(),
            forall|m: int| 0 <= m < pieces@.len() ==> #[trigger] pieces@[m]@ == split(k@, '/')[m],
            joined@ == encode_segments(split(k@, '/').subrange(0, i as int)),
        decreases pieces.len() - i,
    {
        let piece = string_of(&pieces[i]);
        let enc = form_urlencode(piece.as_str());
        proof {
            let sub = split(k@, '/').subrange(0, i + 1);
            assert(sub.drop_last() =~= split(k@, '/').subrange(0, i as int));
            assert(sub.last() == pieces@[i as int]@);
        }
        if i == 0 {
            joined = enc;
        } else {
            let with_slash = concat(joined.as_str(), "/");
            joined = concat(with_slash.as_str(), enc.as_str());
        }
        i += 1;
    }
    proof {
        assert(split(k@, '/').subrange(0, pieces@.len() as int) =~= split(k@, '/'));
    }
    let eb = form_urlencode(b.as_str());
    let c1 = concat("/", eb.as_str());
    let c2 = concat(c1.as_str(), "/");
    let canonical = concat(c2.as_str(), joined.as_str());
    let parsed = match parse_url(endpoint) {
        Err(e) => {
            return Err(e);
        },
        Ok(p) => p,
    };
    let pathv = chars_of(parsed.path.as_str());
    let base_path = trim_end_char_vec(&pathv, '/');
    let bp = string_of(&base_path);
    let p1 = concat(bp.as_str(), "/");
    let p2 = concat(p1.as_str(), b.as_str());
    let p3 = concat(p2.as_str(), "/");
    let ks = string_of(&k);
    let new_path = concat(p3.as_str(), ks.as_str());
    match replace_url_path(endpoint, new_path.as_str()) {
        Some(u) => Ok((u, canonical)),
        None => Err(own("invalid R2 endpoint")),
    }
}

/// The public URL of an uploaded object.
pub open spec fn spec_r2_public_url(public_base_url: Seq<char>, key: Seq<char>) -> Seq<char> {
    trim_end_char(public_base_url, '/') + "/"@ + key
}

pub fn r2_public_object_url(public_base_url: &str, key: &str) -> (r: String)
    ensures
        r@ == spec_r2_public_url(public_base_url@, key@),
{
    let v = chars_of(public_base_url);
    let base = trim_end_char_vec(&v, '/');
    let b = string_of(&base);
    let a = concat(b.as_str(), "/");
    concat(a.as_str(), key)
}

// ---------------------------------------------------------------------
// AWS SigV4
// ---------------------------------------------------------------------
pub open spec fn spec_signing_key(secret: Seq<char>, date_stamp: Seq<char>, region: Seq<char>, service: Seq<char>) -> Seq<u8> {
    let k_date = hmac_sha256_digest(utf8("AWS4"@ + secret), utf8(date_stamp));
    let k_region = hmac_sha256_digest(k_date, utf8(region));
    let k_service = hmac_sha256_digest(k_region, utf8(service));
    hmac_sha256_digest(k_service, utf8("aws4_request"@))
}

/// The SigV4 signing key: HMAC chain over date, region, service and
/// `aws4_request`, starting from `AWS4{secret}`.
pub fn derive_aws_v4_signing_key(
    secret_access_key: &str,
    date_stamp: &str,
    region: &str,
    service: &str,
) -> (r: Vec<u8>)
    ensures
        r@ == spec_signing_key(secret_access_key@, date_stamp@, region@, service@),
{
    let seed = concat("AWS4", secret_access_key);
    let seed_bytes = utf8_bytes(seed.as_str());
    let k_date = match hmac_sha256(&seed_bytes, date_stamp) {
        Ok(k) => k,
        Err(_) => Vec::new(),
    };
    let k_region = match hmac_sha256(&k_date, region) {
        Ok(k) => k,
        Err(_) => Vec::new(),
    };
    let k_service = match hmac_sha256(&k_region, service) {
        Ok(k) => k,
        Err(_) => Vec::new(),
    };
    match hmac_sha256(&k_service, "aws4_request") {
        Ok(k) => k,
        Err(_) => Vec::new(),
    }
}

/// The UTF-8 bytes of a text.
pub fn utf8_bytes(s: &str) -> (r: Vec<u8>)
    ensures
        r@ == utf8(s@),
{
    let v = chars_of(s);
    let mut out: Vec<u8> = Vec::new();
    let mut i: usize = 0;
    while i < v.len()
        invariant
            0 <= i <= v.len(),
            v@ == s@,
            out@ == utf8(v@.subrange(0, i as int)),
        decreases v.len() - i,
    {
        let u = v[i] as u32;
        proof {
            assert(v@.subrange(0, i + 1).drop_last() =~= v@.subrange(0, i as int));
        }
        let ghost before = out@;
        if u < 0x80 {
            out.push(u as u8);
        } else if u < 0x800 {
            out.push((0xC0 + u / 64) as u8);
            out.push((0x80 + u % 64) as u8);
        } else if u < 0x10000 {
            out.push((0xE0 + u / 4096) as u8);
            out.push((0x80 + (u / 64) % 64) as u8);
            out.push((0x80 + u % 64) as u8);
        } else {
            out.push((0xF0 + u / 262144) as u8);
            out.push((0x80 + (u / 4096) % 64) as u8);
            out.push((0x80 + (u / 64) % 64) as u8);
            out.push((0x80 + u % 64) as u8);
        }
        proof {
            assert(out@ =~= before + crate::text::utf8_char(v@[i as int]));
        }
        i += 1;
    }
    assert(v@.subrange(0, v.len() as int) =~= v@);
    out
}

pub open spec fn SIGNED_HEADERS() -> Seq<char> {
    "content-type;host;x-amz-content-sha256;x-amz-date"@
}

/// The request that SigV4 signs for the object `PUT`.
pub open spec fn spec_canonical_request(
    canonical_uri: Seq<char>,
    mime: Seq<char>,
    host: Seq<char>,
    payload_hash: Seq<char>,
    amz_date: Seq<char>,
) -> Seq<char> {
    let canonical_headers = "content-type:"@ + mime + "\nhost:"@ + host + "\nx-amz-content-sha256:"@
        + payload_hash + "\nx-amz-date:"@ + amz_date + "\n"@;
    "PUT\n"@ + canonical_uri + "\n\n"@ + canonical_headers + "\n"@ + SIGNED_HEADERS() + "\n"@
        + payload_hash
}

/// The `Authorization` header of an R2 `PUT`.
pub open spec fn spec_r2_authorization(
    access_key_id: Seq<char>,
    secret: Seq<char>,
    canonical_uri: Seq<char>,
    mime: Seq<char>,
    host: Seq<char>,
    payload_hash: Seq<char>,
    amz_date: Seq<char>,
    date_stamp: Seq<char>,
) -> Seq<char> {
    let scope = date_stamp + "/auto/s3/aws4_request"@;
    let string_to_sign = "AWS4-HMAC-SHA256\n"@ + amz_date + "\n"@ + scope + "\n"@ + hex_lower(
        sha256_digest(utf8(spec_canonical_request(canonical_uri, mime, host, payload_hash, amz_date))),
    );
    let key = spec_signing_key(secret, date_stamp, "auto"@, "s3"@);
    let signature = hex_lower(hmac_sha256_digest(key, utf8(string_to_sign)));
    "AWS4-HMAC-SHA256 Credential="@ + access_key_id + "/"@ + scope + ", SignedHeaders="@
        + SIGNED_HEADERS() + ", Signature="@ + signature
}

/// Signs an R2 object `PUT` with AWS SigV4 (region `auto`, service `s3`).
pub fn r2_authorization(
    access_key_id: &str,
    secret_access_key: &str,
    canonical_uri: &str,
    mime_type: &str,
    host: &str,
    payload_hash: &str,
    amz_date: &str,
    date_stamp: &str,
) -> (r: String)
    ensures
        r@ == spec_r2_authorization(
            access_key_id@,
            secret_access_key@,
            canonical_uri@,
            mime_type@,
            host@,
            payload_hash@,
            amz_date@,
            date_stamp@,
        ),
{
    let signed_headers = "content-type;host;x-amz-content-sha256;x-amz-date";
    let mut headers = concat("content-type:", mime_type);
    headers = concat(headers.as_str(), "\nhost:");
    headers = concat(headers.as_str(), host);
    headers = concat(headers.as_str(), "\nx-amz-content-sha256:");
    headers = concat(headers.as_str(), payload_hash);
    headers = concat(headers.as_str(), "\nx-amz-date:");
    headers = concat(headers.as_str(), amz_date);
    headers = concat(headers.as_str(), "\n");
    let mut request = concat("PUT\n", canonical_uri);
    request = concat(request.as_str(), "\n\n");
    request = concat(request.as_str(), headers.as_str());
    request = concat(request.as_str(), "\n");
    request = concat(request.as_str(), signed_headers);
    request = concat(request.as_str(), "\n");
    request = concat(request.as_str(), payload_hash);
    let scope = concat(date_stamp, "/auto/s3/aws4_request");
    let request_hash = sha256_hex_text(request.as_str());
    let mut string_to_sign = concat("AWS4-HMAC-SHA256\n", amz_date);
    string_to_sign = concat(string_to_sign.as_str(), "\n");
    string_to_sign = concat(string_to_sign.as_str(), scope.as_str());
    string_to_sign = concat(string_to_sign.as_str(), "\n");
    string_to_sign = concat(string_to_sign.as_str(), request_hash.as_str());
    let key = derive_aws_v4_signing_key(secret_access_key, date_stamp, "auto", "s3");
    let mac = match hmac_sha256(&key, string_to_sign.as_str()) {
        Ok(m) => m,
        Err(_) => Vec::new(),
    };
    let signature = hex_encode(&mac);
    let mut out = concat("AWS4-HMAC-SHA256 Credential=", access_key_id);
    out = concat(out.as_str(), "/");
    out = concat(out.as_str(), scope.as_str());
    out = concat(out.as_str(), ", SignedHeaders=");
    out = concat(out.as_str(), signed_headers);
    out = concat(out.as_str(), ", Signature=");
    out = concat(out.as_str(), signature.as_str());
    out
}

// ---------------------------------------------------------------------
// Base64 payloads
// ---------------------------------------------------------------------
pub open spec fn INVALID_BASE64_LENGTH_MESSAGE() -> Seq<char> {
    "invalid base64 length"@
}

/// The number of bytes a padded base64 text decodes to.
pub open spec fn spec_decoded_len(data: Seq<char>) -> Result<u64, Seq<char>> {
    let n = utf8_len(data);
    if n == 0 {
        Ok(0)
    } else if n % 4 != 0 {
        Err(INVALID_BASE64_LENGTH_MESSAGE())
    } else {
        let padding: int = if ends_with(data, "=="@) {
            2
        } else if ends_with(data, "="@) {
            1
        } else {
            0
        };
        Ok(((n / 4) * 3 - padding) as u64)
    }
}

pub fn decoded_base64_len(data_base64: &str) -> (r: Result<u64, String>)
    requires
        utf8_len(data_base64@) <= u64::MAX,
    ensures
        match r {
            Ok(n) => spec_decoded_len(data_base64@) == Ok::<u64, Seq<char>>(n),
            Err(e) => spec_decoded_len(data_base64@) == Err::<u64, Seq<char>>(e@),
        },
{
    let n = utf8_len_exec(data_base64);
    if n == 0 {
        return Ok(0);
    }
    if n % 4 != 0 {
        return Err(own("invalid base64 length"));
    }
    let v = chars_of(data_base64);
    let two = chars_of("==");
    let one = chars_of("=");
    let padding: u128 = if ends_with_vec(&v, &two) {
        2
    } else if ends_with_vec(&v, &one) {
        1
    } else {
        0
    };
    Ok(((n / 4) * 3 - padding) as u64)
}

/// Where the base64 chunk that starts at `offset` ends.
pub open spec fn spec_chunk_end(total_len: nat, offset: nat) -> nat {
    let remaining = if total_len >= offset {
        (total_len - offset) as nat
    } else {
        0
    };
    if remaining <= BASE64_STREAM_INPUT_CHARS {
        total_len
    } else {
        (offset + BASE64_STREAM_INPUT_CHARS) as nat
    }
}

pub fn next_base64_chunk_end(total_len: usize, offset: usize) -> (r: usize)
    ensures
        r == spec_chunk_end(total_len as nat, offset as nat),
{
    let remaining = total_len.saturating_sub(offset);
    if remaining <= BASE64_STREAM_INPUT_CHARS {
        total_len
    } else {
        offset + BASE64_STREAM_INPUT_CHARS
    }
}


/// What an uguu upload answered: the first file's URL when the upload
/// succeeded and that URL is not blank, else the failure with the
/// (trimmed) answer.
pub open spec fn spec_uguu_outcome(success: bool, file_urls: Seq<Seq<char>>, body: Seq<char>) -> Result<Seq<char>, Seq<char>> {
    if !success || file_urls.len() == 0 || trim(file_urls[0]).len() == 0 {
        Err("uguu upload failed: "@ + trim(body))
    } else {
        Ok(file_urls[0])
    }
}

/// The URL an uguu upload gave, from its decoded answer (`success` and the
/// URLs of `files`) and the answer's text.
pub fn uguu_upload_url(success: bool, file_urls: &[String], body: &str) -> (r: Result<String, String>)
    ensures
        match (r, spec_uguu_outcome(success, crate::text::strs_view(file_urls@), body@)) {
            (Ok(u), Ok(v)) => u@ == v,
            (Err(e), Err(v)) => e@ == v,
            _ => false,
        },
{
    if !success || file_urls.len() == 0 {
        let t = trim_str(body);
        return Err(concat("uguu upload failed: ", t.as_str()));
    }
    let first = trim_str(file_urls[0].as_str());
    if first.as_str().is_empty() {
        let t = trim_str(body);
        return Err(concat("uguu upload failed: ", t.as_str()));
    }
    Ok(file_urls[0].clone())
}

/// What a kefan upload answered: its `data` (the URL) when the upload
/// succeeded and it is not blank, else the failure with the answer.
pub open spec fn spec_kefan_outcome(success: bool, data: Seq<char>, body: Seq<char>) -> Result<Seq<char>, Seq<char>> {
    if !success || trim(data).len() == 0 {
        Err("kefan upload failed: "@ + trim(body))
    } else {
        Ok(data)
    }
}

/// The URL a kefan upload gave, from its decoded answer and its text.
pub fn kefan_upload_url(success: bool, data: &str, body: &str) -> (r: Result<String, String>)
    ensures
        match (r, spec_kefan_outcome(success, data@, body@)) {
            (Ok(u), Ok(v)) => u@ == v,
            (Err(e), Err(v)) => e@ == v,
            _ => false,
        },
{
    let d = trim_str(data);
    if !success || d.as_str().is_empty() {
        let t = trim_str(body);
        return Err(concat("kefan upload failed: ", t.as_str()));
    }
    Ok(own(data))
}

} // verus!
