//! Image limits, MIME type handling and optional PNG re-encoding.
//!
//! Decoding and encoding are done by the `image` and `jpeg-encoder`
//! crates, reached through the trusted items below; which result is kept
//! is decided here.
use vstd::prelude::*;

use crate::config::{is_http_scheme, strings_view};
use crate::urls::{parse_url, url_parse_outcome};
use crate::text::{
    chars_of, concat, decimal, ends_with, ends_with_vec, find_char, find_char_vec, lower,
    lower_str, lower_vec, own, slice_range, str_eq, string_of, trim, trim_str, trim_vec,
    u64_to_decimal, vec_is,
};

verus! {

pub const DEFAULT_MAX_IMAGE_BYTES: usize = 36700160;

pub const REQUEST_MAX_IMAGE_BYTES: usize = 20971520;

pub const REQUEST_PNG_WEBP_THRESHOLD_BYTES: usize = 10485760;

pub const PNG_COMPRESSION_THRESHOLD_BYTES: usize = 15728640;

pub const DEFAULT_JPEG_QUALITY: u8 = 97;

/// An image after optional re-encoding.
#[derive(Clone, Debug, PartialEq, Eq)]
pub struct OptimizedImage {
    pub mime_type: String,
    pub bytes: Vec<u8>,
}

pub open spec fn too_large_message(actual: nat, limit: nat) -> Seq<char> {
    "image too large: "@ + decimal(actual) + " > "@ + decimal(limit)
}

/// Refuses a size over the limit.
pub fn enforce_max_size(actual: usize, limit: usize) -> (r: Result<(), String>)
    ensures
        r is Err <==> actual > limit,
        match r {
            Err(e) => e@ == too_large_message(actual as nat, limit as nat),
            Ok(()) => true,
        },
{
    enforce_max_size_u64(actual as u64, limit)
}

/// `enforce_max_size` for a size announced as `u64` (a content length).
pub fn enforce_max_size_u64(actual: u64, limit: usize) -> (r: Result<(), String>)
    ensures
        r is Err <==> actual > limit,
        match r {
            Err(e) => e@ == too_large_message(actual as nat, limit as nat),
            Ok(()) => true,
        },
{
    if actual > limit as u64 {
        let a = u64_to_decimal(actual);
        let l = u64_to_decimal(limit as u64);
        let m1 = concat("image too large: ", a.as_str());
        let m2 = concat(m1.as_str(), " > ");
        return Err(concat(m2.as_str(), l.as_str()));
    }
    Ok(())
}

// ---------------------------------------------------------------------
// Host patterns
// ---------------------------------------------------------------------
/// A pattern matches a host when equal to it, or, for a pattern that
/// starts with `.`, when the host is the domain after the dot or ends with
/// the pattern. Both sides are compared trimmed and in ASCII lower case.
pub open spec fn pattern_matches(host: Seq<char>, pattern: Seq<char>) -> bool {
    pattern.len() > 0 && if pattern[0] == '.' {
        host == pattern.subrange(1, pattern.len() as int) || ends_with(host, pattern)
    } else {
        host == pattern
    }
}

pub open spec fn spec_hostname_matches(hostname: Seq<char>, patterns: Seq<Seq<char>>) -> bool {
    let host = lower(trim(hostname));
    host.len() > 0 && exists|i: int|
        0 <= i < patterns.len() && pattern_matches(host, #[trigger] lower(trim(patterns[i])))
}

/// Domain patterns are matched against the host trimmed and in lower case.
/// A pattern `d` matches that host only; a pattern `.d` matches `d` itself
/// and every host ending in `.d`. A host matches a list exactly when it
/// matches one of its patterns, and a blank host matches nothing.
pub proof fn law_domain_patterns(hostname: Seq<char>, d: Seq<char>, patterns: Seq<Seq<char>>)
    requires
        d.len() > 0,
        d[0] != '.',
        lower(trim(d)) == d,
        lower(trim(seq!['.'] + d)) == seq!['.'] + d,
    ensures
        spec_hostname_matches(hostname, seq![d]) <==> lower(trim(hostname)) == d,
        spec_hostname_matches(hostname, seq![seq!['.'] + d]) <==> (lower(trim(hostname)) == d
            || ends_with(lower(trim(hostname)), seq!['.'] + d)),
        spec_hostname_matches(hostname, patterns) <==> exists|i: int|
            0 <= i < patterns.len() && spec_hostname_matches(hostname, seq![#[trigger] patterns[i]]),
        lower(trim(hostname)).len() == 0 ==> !spec_hostname_matches(hostname, patterns),
{
    let h = lower(trim(hostname));
    let dd = seq!['.'] + d;
    assert(seq![d][0] == d);
    assert(seq![dd][0] == dd);
    assert(dd.subrange(1, dd.len() as int) =~= d);
    if h == d {
        assert(pattern_matches(h, lower(trim(seq![dd][0]))));
    }
    if ends_with(h, dd) {
        assert(pattern_matches(h, lower(trim(seq![dd][0]))));
    }
    if spec_hostname_matches(hostname, patterns) {
        let i = choose|i: int|
            0 <= i < patterns.len() && pattern_matches(h, #[trigger] lower(trim(patterns[i])));
        assert(seq![patterns[i]][0] == patterns[i]);
    }
    if exists|i: int| 0 <= i < patterns.len() && spec_hostname_matches(hostname, seq![#[trigger] patterns[i]]) {
        let i = choose|i: int|
            0 <= i < patterns.len() && spec_hostname_matches(hostname, seq![#[trigger] patterns[i]]);
        let k = choose|k: int| 0 <= k < 1 && pattern_matches(h, #[trigger] lower(trim(seq![patterns[i]][k])));
        assert(k == 0);
        assert(pattern_matches(h, lower(trim(patterns[i]))));
    }
}

fn pattern_matches_exec(host: &Vec<char>, pattern: &String) -> (r: bool)
    ensures
        r == pattern_matches(host@, lower(trim(pattern@))),
{
    let pv = chars_of(pattern.as_str());
    let t = trim_vec(&pv);
    let p = lower_vec(&t);
    if p.len() == 0 {
        return false;
    }
    if p[0] == '.' {
        let suffix = slice_range(&p, 1, p.len());
        crate::text::seq_eq(host, &suffix) || ends_with_vec(host, &p)
    } else {
        crate::text::seq_eq(host, &p)
    }
}

/// Whether a host name matches one of the domain patterns.
pub fn hostname_matches_domain_patterns(hostname: &str, patterns: &[String]) -> (r: bool)
    ensures
        r == spec_hostname_matches(hostname@, strings_view(patterns@)),
{
    let ghost pv = strings_view(patterns@);
    let hv = chars_of(hostname);
    let t = trim_vec(&hv);
    let host = lower_vec(&t);
    if host.len() == 0 {
        return false;
    }
    let mut i: usize = 0;
    while i < patterns.len()
        invariant
            0 <= i <= patterns.len(),
            pv == strings_view(patterns@),
            host@ == lower(trim(hostname@)),
            host@.len() > 0,
            forall|k: int| 0 <= k < i ==> !pattern_matches(host@, #[trigger] lower(trim(pv[k]))),
        decreases patterns.len() - i,
    {
        if pattern_matches_exec(&host, &patterns[i]) {
            assert(pv[i as int] == patterns@[i as int]@);
            assert(pattern_matches(host@, lower(trim(pv[i as int]))));
            return true;
        }
        assert(pv[i as int] == patterns@[i as int]@);
        i += 1;
    }
    false
}

// ---------------------------------------------------------------------
// MIME types
// ---------------------------------------------------------------------
pub open spec fn spec_guess_mime(raw_url: Seq<char>) -> Seq<char> {
    let l = lower(raw_url);
    if ends_with(l, ".jpg"@) || ends_with(l, ".jpeg"@) {
        "image/jpeg"@
    } else if ends_with(l, ".webp"@) {
        "image/webp"@
    } else if ends_with(l, ".gif"@) {
        "image/gif"@
    } else {
        "image/png"@
    }
}

/// The last character of a text that ends with `p`.
proof fn lemma_ends_with_last(s: Seq<char>, p: Seq<char>)
    requires
        ends_with(s, p),
        p.len() > 0,
    ensures
        s[s.len() - 1] == p[p.len() - 1],
{
    assert(s.subrange(s.len() - p.len(), s.len() as int)[p.len() - 1] == s[s.len() - 1]);
}

/// The type guessed from a URL follows its extension, in any letter case:
/// `.jpg` and `.jpeg` are JPEG, `.webp` WebP, `.gif` GIF, anything else
/// PNG. A fetched image whose type is missing or
/// `application/octet-stream` gets the same guess.
pub proof fn law_mime_guess_follows_the_extension(raw_url: Seq<char>, content_type: Seq<char>)
    ensures
        ends_with(lower(raw_url), ".jpg"@) || ends_with(lower(raw_url), ".jpeg"@) ==> spec_guess_mime(
            raw_url,
        ) == "image/jpeg"@,
        ends_with(lower(raw_url), ".webp"@) ==> spec_guess_mime(raw_url) == "image/webp"@,
        ends_with(lower(raw_url), ".gif"@) ==> spec_guess_mime(raw_url) == "image/gif"@,
        !ends_with(lower(raw_url), ".jpg"@) && !ends_with(lower(raw_url), ".jpeg"@) && !ends_with(
            lower(raw_url),
            ".webp"@,
        ) && !ends_with(lower(raw_url), ".gif"@) ==> spec_guess_mime(raw_url) == "image/png"@,
        lower(trim(before_semicolon(content_type))) == "application/octet-stream"@ ==> spec_normalize_mime(
            Some(content_type),
            raw_url,
        ) == spec_guess_mime(raw_url),
        ends_with(lower(raw_url), ".jpg"@) && lower(trim(before_semicolon(content_type)))
            == "application/octet-stream"@ ==> spec_normalize_mime(Some(content_type), raw_url)
            == "image/jpeg"@,
{
    reveal_strlit(".jpg");
    reveal_strlit(".jpeg");
    reveal_strlit(".webp");
    reveal_strlit(".gif");
    let l = lower(raw_url);
    if ends_with(l, ".webp"@) {
        lemma_ends_with_last(l, ".webp"@);
        if ends_with(l, ".jpg"@) {
            lemma_ends_with_last(l, ".jpg"@);
        }
        if ends_with(l, ".jpeg"@) {
            lemma_ends_with_last(l, ".jpeg"@);
        }
    }
    if ends_with(l, ".gif"@) {
        lemma_ends_with_last(l, ".gif"@);
        if ends_with(l, ".jpg"@) {
            lemma_ends_with_last(l, ".jpg"@);
        }
        if ends_with(l, ".jpeg"@) {
            lemma_ends_with_last(l, ".jpeg"@);
        }
        if ends_with(l, ".webp"@) {
            lemma_ends_with_last(l, ".webp"@);
        }
    }
}

/// The image type suggested by the URL's extension; PNG when none is known.
pub fn guess_image_mime_type_from_url(raw_url: &str) -> (r: String)
    ensures
        r@ == spec_guess_mime(raw_url@),
{
    let v = chars_of(raw_url);
    let l = lower_vec(&v);
    let jpg = chars_of(".jpg");
    let jpeg = chars_of(".jpeg");
    let webp = chars_of(".webp");
    let gif = chars_of(".gif");
    if ends_with_vec(&l, &jpg) || ends_with_vec(&l, &jpeg) {
        return own("image/jpeg");
    }
    if ends_with_vec(&l, &webp) {
        return own("image/webp");
    }
    if ends_with_vec(&l, &gif) {
        return own("image/gif");
    }
    own("image/png")
}

/// The part of `s` before the first `;`.
pub open spec fn before_semicolon(s: Seq<char>) -> Seq<char> {
    match find_char(s, ';') {
        Some(i) => s.subrange(0, i),
        None => s,
    }
}

pub open spec fn spec_normalize_mime(content_type: Option<Seq<char>>, raw_url: Seq<char>) -> Seq<
    char,
> {
    let ct = match content_type {
        Some(c) => c,
        None => "image/png"@,
    };
    let normalized = lower(trim(before_semicolon(ct)));
    if normalized == "application/octet-stream"@ || normalized.len() == 0 {
        spec_guess_mime(raw_url)
    } else {
        normalized
    }
}

/// The media type of a `Content-Type` value, without parameters, in lower
/// case; guessed from the URL when absent, empty or
/// `application/octet-stream`.
pub fn normalize_image_mime_type(content_type: Option<&str>, raw_url: &str) -> (r: String)
    ensures
        r@ == spec_normalize_mime(
            match content_type {
                Some(c) => Some(c@),
                None => None,
            },
            raw_url@,
        ),
{
    let ct = match content_type {
        Some(c) => chars_of(c),
        None => chars_of("image/png"),
    };
    let head = match find_char_vec(&ct, ';') {
        Some(i) => slice_range(&ct, 0, i),
        None => ct,
    };
    let t = trim_vec(&head);
    let normalized = lower_vec(&t);
    if vec_is(&normalized, "application/octet-stream") || normalized.len() == 0 {
        return guess_image_mime_type_from_url(raw_url);
    }
    string_of(&normalized)
}

pub open spec fn png_signature() -> Seq<u8> {
    seq![137u8, 80u8, 78u8, 71u8, 13u8, 10u8, 26u8, 10u8]
}

pub open spec fn bytes_start_with(b: Seq<u8>, p: Seq<u8>) -> bool {
    p.len() <= b.len() && b.subrange(0, p.len() as int) == p
}

/// The image type that the leading bytes announce.
pub open spec fn spec_sniff(b: Seq<u8>) -> Option<Seq<char>> {
    if bytes_start_with(b, png_signature()) {
        Some("image/png"@)
    } else if bytes_start_with(b, seq![0xFFu8, 0xD8u8, 0xFFu8]) {
        Some("image/jpeg"@)
    } else if b.len() >= 12 && bytes_start_with(b, seq![82u8, 73u8, 70u8, 70u8])
        && b.subrange(8, 12) == seq![87u8, 69u8, 66u8, 80u8] {
        Some("image/webp"@)
    } else if bytes_start_with(b, seq![71u8, 73u8, 70u8, 56u8, 55u8, 97u8]) || bytes_start_with(
        b,
        seq![71u8, 73u8, 70u8, 56u8, 57u8, 97u8],
    ) {
        Some("image/gif"@)
    } else {
        None
    }
}

fn bytes_at(b: &[u8], start: usize, p: &[u8]) -> (r: bool)
    ensures
        r == (start + p.len() <= b.len() && b@.subrange(start as int, start + p.len()) == p@),
{
    if start > b.len() || p.len() > b.len() - start {
        return false;
    }
    let mut i: usize = 0;
    while i < p.len()
        invariant
            start + p.len() <= b.len(),
            0 <= i <= p.len(),
            forall|k: int| 0 <= k < i ==> b@[start + k] == p@[k],
        decreases p.len() - i,
    {
        if b[start + i] != p[i] {
            assert(b@.subrange(start as int, start + p.len())[i as int] != p@[i as int]);
            return false;
        }
        i += 1;
    }
    assert(b@.subrange(start as int, start + p.len()) =~= p@);
    true
}

/// The image type that the leading bytes of a file announce: PNG, JPEG,
/// WebP or GIF.
pub fn sniff_image_mime_type(bytes: &[u8]) -> (r: Option<&'static str>)
    ensures
        match r {
            Some(m) => spec_sniff(bytes@) == Some(m@),
            None => spec_sniff(bytes@) is None,
        },
{
    let png: [u8; 8] = [137, 80, 78, 71, 13, 10, 26, 10];
    let jpeg: [u8; 3] = [0xFF, 0xD8, 0xFF];
    let riff: [u8; 4] = [82, 73, 70, 70];
    let webp: [u8; 4] = [87, 69, 66, 80];
    let gif7: [u8; 6] = [71, 73, 70, 56, 55, 97];
    let gif9: [u8; 6] = [71, 73, 70, 56, 57, 97];
    proof {
        assert(png@ =~= png_signature());
        assert(jpeg@ =~= seq![0xFFu8, 0xD8u8, 0xFFu8]);
        assert(riff@ =~= seq![82u8, 73u8, 70u8, 70u8]);
        assert(webp@ =~= seq![87u8, 69u8, 66u8, 80u8]);
        assert(gif7@ =~= seq![71u8, 73u8, 70u8, 56u8, 55u8, 97u8]);
        assert(gif9@ =~= seq![71u8, 73u8, 70u8, 56u8, 57u8, 97u8]);
    }
    if bytes_at(bytes, 0, &png) {
        return Some("image/png");
    }
    if bytes_at(bytes, 0, &jpeg) {
        return Some("image/jpeg");
    }
    if bytes.len() >= 12 && bytes_at(bytes, 0, &riff) && bytes_at(bytes, 8, &webp) {
        return Some("image/webp");
    }
    if bytes_at(bytes, 0, &gif7) || bytes_at(bytes, 0, &gif9) {
        return Some("image/gif");
    }
    None
}

// ---------------------------------------------------------------------
// Re-encoding
// ---------------------------------------------------------------------
/// What the `image` crate decodes from PNG bytes, as RGB8 samples with
/// width and height, or its error's text.
pub uninterp spec fn png_rgb8_decoding(png: Seq<u8>) -> Result<(Seq<u8>, u32, u32), Seq<char>>;

/// What the `image` crate decodes from PNG bytes, as RGBA8 samples with
/// width and height, or its error's text.
pub uninterp spec fn png_rgba8_decoding(png: Seq<u8>) -> Result<(Seq<u8>, u32, u32), Seq<char>>;

/// What `jpeg_encoder` writes for RGB samples at 4:4:4 sampling.
pub uninterp spec fn jpeg_444_encoding(rgb: Seq<u8>, width: u16, height: u16, quality: u8) -> Result<
    Seq<u8>,
    Seq<char>,
>;

/// What the `image` crate's lossless WebP encoder writes for RGBA samples.
pub uninterp spec fn webp_lossless_encoding(rgba: Seq<u8>, width: u32, height: u32) -> Result<
    Seq<u8>,
    Seq<char>,
>;

/// Calls `image::load_from_memory_with_format` with `ImageFormat::Png` and
/// `DynamicImage::to_rgb8`; the outcome is named `png_rgb8_decoding`.
#[verifier::external_body]
fn decode_png_rgb8(png: &[u8]) -> (r: Result<(Vec<u8>, u32, u32), String>)
    ensures
        match r {
            Ok((raw, w, h)) => png_rgb8_decoding(png@) == Ok::<(Seq<u8>, u32, u32), Seq<char>>(
                (raw@, w, h),
            ),
            Err(e) => png_rgb8_decoding(png@) == Err::<(Seq<u8>, u32, u32), Seq<char>>(e@),
        },
{
    match image::load_from_memory_with_format(png, image::ImageFormat::Png) {
        Ok(dynamic) => {
            let rgb = dynamic.to_rgb8();
            let (w, h) = rgb.dimensions();
            Ok((rgb.into_raw(), w, h))
        },
        Err(err) => Err(err.to_string()),
    }
}

/// Calls `image::load_from_memory_with_format` with `ImageFormat::Png` and
/// `DynamicImage::to_rgba8`; the outcome is named `png_rgba8_decoding`.
#[verifier::external_body]
fn decode_png_rgba8(png: &[u8]) -> (r: Result<(Vec<u8>, u32, u32), String>)
    ensures
        match r {
            Ok((raw, w, h)) => png_rgba8_decoding(png@) == Ok::<(Seq<u8>, u32, u32), Seq<char>>(
                (raw@, w, h),
            ),
            Err(e) => png_rgba8_decoding(png@) == Err::<(Seq<u8>, u32, u32), Seq<char>>(e@),
        },
{
    match image::load_from_memory_with_format(png, image::ImageFormat::Png) {
        Ok(dynamic) => {
            let rgba = dynamic.to_rgba8();
            let (w, h) = rgba.dimensions();
            Ok((rgba.into_raw(), w, h))
        },
        Err(err) => Err(err.to_string()),
    }
}

/// Calls `jpeg_encoder::Encoder::new` on a fresh buffer with the quality,
/// `set_sampling_factor(SamplingFactor::R_4_4_4)` and `encode` with
/// `ColorType::Rgb`; the outcome is named `jpeg_444_encoding`.
#[verifier::external_body]
fn encode_jpeg_rgb_444(rgb: &[u8], width: u16, height: u16, quality: u8) -> (r: Result<
    Vec<u8>,
    String,
>)
    ensures
        match r {
            Ok(out) => jpeg_444_encoding(rgb@, width, height, quality) == Ok::<Seq<u8>, Seq<char>>(
                out@,
            ),
            Err(e) => jpeg_444_encoding(rgb@, width, height, quality) == Err::<Seq<u8>, Seq<char>>(
                e@,
            ),
        },
{
    let mut encoded = Vec::new();
    let mut encoder = jpeg_encoder::Encoder::new(&mut encoded, quality);
    encoder.set_sampling_factor(jpeg_encoder::SamplingFactor::R_4_4_4);
    match encoder.encode(rgb, width, height, jpeg_encoder::ColorType::Rgb) {
        Ok(()) => Ok(encoded),
        Err(err) => Err(err.to_string()),
    }
}

/// Calls `WebPEncoder::new_lossless` on a fresh buffer and `write_image`
/// with `ExtendedColorType::Rgba8`; the outcome is named
/// `webp_lossless_encoding`. `write_image` panics unless the buffer holds
/// exactly four bytes per pixel, which `requires` demands.
#[verifier::external_body]
fn encode_webp_lossless(rgba: &[u8], width: u32, height: u32) -> (r: Result<Vec<u8>, String>)
    requires
        rgba@.len() == width * height * 4,
    ensures
        match r {
            Ok(out) => webp_lossless_encoding(rgba@, width, height) == Ok::<Seq<u8>, Seq<char>>(
                out@,
            ),
            Err(e) => webp_lossless_encoding(rgba@, width, height) == Err::<Seq<u8>, Seq<char>>(
                e@,
            ),
        },
{
    let mut encoded = Vec::new();
    let encoder = image::codecs::webp::WebPEncoder::new_lossless(&mut encoded);
    match image::ImageEncoder::write_image(
        encoder,
        rgba,
        width,
        height,
        image::ExtendedColorType::Rgba8,
    ) {
        Ok(()) => Ok(encoded),
        Err(err) => Err(err.to_string()),
    }
}

pub open spec fn optimized_view(o: OptimizedImage) -> (Seq<char>, Seq<u8>) {
    (o.mime_type@, o.bytes@)
}

/// Keeps the re-encoded bytes only when they are smaller than the original.
pub open spec fn spec_pick_smaller(
    original: Seq<u8>,
    original_mime: Seq<char>,
    encoded: Seq<u8>,
    encoded_mime: Seq<char>,
) -> (Seq<char>, Seq<u8>) {
    if encoded.len() >= original.len() {
        (original_mime, original)
    } else {
        (encoded_mime, encoded)
    }
}

/// The smaller of an original image and its re-encoding; the original when
/// the re-encoding is not smaller.
pub fn pick_smaller_encoding(
    original: &[u8],
    original_mime: String,
    encoded: Vec<u8>,
    encoded_mime: &str,
) -> (r: OptimizedImage)
    ensures
        optimized_view(r) == spec_pick_smaller(original@, original_mime@, encoded@, encoded_mime@),
{
    if encoded.len() >= original.len() {
        OptimizedImage { mime_type: original_mime, bytes: copy_bytes(original) }
    } else {
        OptimizedImage { mime_type: own(encoded_mime), bytes: encoded }
    }
}

/// A copy of a byte slice.
pub fn copy_bytes(b: &[u8]) -> (r: Vec<u8>)
    ensures
        r@ == b@,
{
    let mut out: Vec<u8> = Vec::new();
    let mut i: usize = 0;
    while i < b.len()
        invariant
            0 <= i <= b.len(),
            out@ == b@.subrange(0, i as int),
        decreases b.len() - i,
    {
        out.push(b[i]);
        assert(b@.subrange(0, i + 1) =~= b@.subrange(0, i as int).push(b@[i as int]));
        i += 1;
    }
    assert(b@.subrange(0, b.len() as int) =~= b@);
    out
}

pub open spec fn is_png_mime(normalized: Seq<char>) -> bool {
    normalized == "image/png"@
}

/// `maybe_compress_png_bytes_with_options`: a large PNG re-encoded as a
/// 4:4:4 JPEG when enabled and smaller.
pub open spec fn spec_compress_png(
    bytes: Seq<u8>,
    mime: Seq<char>,
    enabled: bool,
    threshold: nat,
    quality: u8,
) -> Result<(Seq<char>, Seq<u8>), Seq<char>> {
    let nm = lower(trim(mime));
    if !enabled || !is_png_mime(nm) || bytes.len() <= threshold {
        Ok((nm, bytes))
    } else {
        match png_rgb8_decoding(bytes) {
            Err(e) => Err(e),
            Ok((raw, w, h)) => if w > u16::MAX {
                Err("image width too large"@)
            } else if h > u16::MAX {
                Err("image height too large"@)
            } else {
                match jpeg_444_encoding(raw, w as u16, h as u16, quality) {
                    Err(e) => Err(e),
                    Ok(enc) => Ok(spec_pick_smaller(bytes, nm, enc, "image/jpeg"@)),
                }
            },
        }
    }
}

/// `maybe_convert_png_bytes_to_lossless_webp_with_threshold`: a large PNG
/// re-encoded as lossless WebP when smaller.
pub open spec fn spec_png_to_webp(bytes: Seq<u8>, mime: Seq<char>, threshold: nat) -> Result<
    (Seq<char>, Seq<u8>),
    Seq<char>,
> {
    let nm = lower(trim(mime));
    if !is_png_mime(nm) || bytes.len() <= threshold {
        Ok((nm, bytes))
    } else {
        match png_rgba8_decoding(bytes) {
            Err(e) => Err(e),
            Ok((raw, w, h)) => if raw.len() != w * h * 4 {
                Err(INVALID_BUFFER_MESSAGE())
            } else {
                match webp_lossless_encoding(raw, w, h) {
                    Err(e) => Err(e),
                    Ok(enc) => Ok(spec_pick_smaller(bytes, nm, enc, "image/webp"@)),
                }
            },
        }
    }
}

pub open spec fn INVALID_BUFFER_MESSAGE() -> Seq<char> {
    "decoded image buffer does not match its dimensions"@
}

pub open spec fn result_matches(
    r: Result<OptimizedImage, String>,
    s: Result<(Seq<char>, Seq<u8>), Seq<char>>,
) -> bool {
    match r {
        Ok(o) => s == Ok::<(Seq<char>, Seq<u8>), Seq<char>>(optimized_view(o)),
        Err(e) => s == Err::<(Seq<char>, Seq<u8>), Seq<char>>(e@),
    }
}

pub fn maybe_compress_png_bytes(bytes: &[u8], mime_type: &str, enabled: bool) -> (r: Result<
    OptimizedImage,
    String,
>)
    ensures
        result_matches(
            r,
            spec_compress_png(
                bytes@,
                mime_type@,
                enabled,
                PNG_COMPRESSION_THRESHOLD_BYTES as nat,
                DEFAULT_JPEG_QUALITY,
            ),
        ),
{
    maybe_compress_png_bytes_with_options(
        bytes,
        mime_type,
        enabled,
        PNG_COMPRESSION_THRESHOLD_BYTES,
        DEFAULT_JPEG_QUALITY,
    )
}

pub fn maybe_compress_png_bytes_with_threshold(
    bytes: &[u8],
    mime_type: &str,
    enabled: bool,
    threshold_bytes: usize,
) -> (r: Result<OptimizedImage, String>)
    ensures
        result_matches(
            r,
            spec_compress_png(
                bytes@,
                mime_type@,
                enabled,
                threshold_bytes as nat,
                DEFAULT_JPEG_QUALITY,
            ),
        ),
{
    maybe_compress_png_bytes_with_options(
        bytes,
        mime_type,
        enabled,
        threshold_bytes,
        DEFAULT_JPEG_QUALITY,
    )
}

pub fn maybe_compress_png_bytes_with_options(
    bytes: &[u8],
    mime_type: &str,
    enabled: bool,
    threshold_bytes: usize,
    jpeg_quality: u8,
) -> (r: Result<OptimizedImage, String>)
    ensures
        result_matches(
            r,
            spec_compress_png(bytes@, mime_type@, enabled, threshold_bytes as nat, jpeg_quality),
        ),
{
    let mv = chars_of(mime_type);
    let t = trim_vec(&mv);
    let nv = lower_vec(&t);
    let normalized_mime = string_of(&nv);
    if !enabled || !vec_is(&nv, "image/png") || bytes.len() <= threshold_bytes {
        return Ok(OptimizedImage { mime_type: normalized_mime, bytes: copy_bytes(bytes) });
    }
    let (raw, w, h) = match decode_png_rgb8(bytes) {
        Err(e) => {
            return Err(e);
        },
        Ok(d) => d,
    };
    if w > 65535 {
        return Err(own("image width too large"));
    }
    if h > 65535 {
        return Err(own("image height too large"));
    }
    match encode_jpeg_rgb_444(&raw, w as u16, h as u16, jpeg_quality) {
        Err(e) => Err(e),
        Ok(encoded) => Ok(pick_smaller_encoding(bytes, normalized_mime, encoded, "image/jpeg")),
    }
}

pub fn maybe_convert_png_bytes_to_lossless_webp_with_threshold(
    bytes: &[u8],
    mime_type: &str,
    threshold_bytes: usize,
) -> (r: Result<OptimizedImage, String>)
    ensures
        result_matches(r, spec_png_to_webp(bytes@, mime_type@, threshold_bytes as nat)),
{
    let mv = chars_of(mime_type);
    let t = trim_vec(&mv);
    let nv = lower_vec(&t);
    let normalized_mime = string_of(&nv);
    if !vec_is(&nv, "image/png") || bytes.len() <= threshold_bytes {
        return Ok(OptimizedImage { mime_type: normalized_mime, bytes: copy_bytes(bytes) });
    }
    let (raw, w, h) = match decode_png_rgba8(bytes) {
        Err(e) => {
            return Err(e);
        },
        Ok(d) => d,
    };
    assert((w as u128) * (h as u128) <= 0xffff_ffff_ffff_ffff) by (nonlinear_arith)
        requires
            w <= 0xffff_ffff,
            h <= 0xffff_ffff,
    ;
    let wh = (w as u128) * (h as u128);
    if raw.len() as u128 != wh * 4 {
        return Err(own("decoded image buffer does not match its dimensions"));
    }
    match encode_webp_lossless(&raw, w, h) {
        Err(e) => Err(e),
        Ok(encoded) => Ok(pick_smaller_encoding(bytes, normalized_mime, encoded, "image/webp")),
    }
}

// ---------------------------------------------------------------------
// Which image URLs may be fetched
// ---------------------------------------------------------------------
/// What `std::net` reads from a host name: an IPv4 address by its four
/// octets, an IPv6 address by its eight segments, or no address.
#[derive(Clone, Copy, Debug, PartialEq, Eq)]
pub enum HostIp {
    V4([u8; 4]),
    V6([u16; 8]),
    NotIp,
}

/// Addresses the proxy does not fetch from: for IPv4 the private ranges
/// 10/8, 172.16/12 and 192.168/16, loopback 127/8, link-local 169.254/16
/// and 0.0.0.0; for IPv6 `::1`, `::`, unique-local fc00::/7 and link-local
/// fe80::/10.
pub open spec fn spec_forbidden_ip(ip: HostIp) -> bool {
    match ip {
        HostIp::V4(a) => {
            ||| a@[0] == 10
            ||| a@[0] == 172 && 16 <= a@[1] <= 31
            ||| a@[0] == 192 && a@[1] == 168
            ||| a@[0] == 127
            ||| a@[0] == 169 && a@[1] == 254
            ||| a@[0] == 0 && a@[1] == 0 && a@[2] == 0 && a@[3] == 0
        },
        HostIp::V6(g) => {
            ||| (forall|i: int| 0 <= i < 7 ==> g@[i] == 0) && (g@[7] == 1 || g@[7] == 0)
            ||| 0xfc00 <= g@[0] <= 0xfdff
            ||| 0xfe80 <= g@[0] <= 0xfebf
        },
        HostIp::NotIp => false,
    }
}

/// The host of an image URL, or why the URL cannot be fetched: the parse
/// error, or `invalid image url` unless the scheme is `http` or `https`
/// and the host is not empty.
pub open spec fn spec_fetch_url_host(raw: Seq<char>) -> Result<Seq<char>, Seq<char>> {
    match url_parse_outcome(raw) {
        Err(e) => Err(e),
        Ok(p) => match p.1 {
            Some(h) => if is_http_scheme(p.0) && h.len() > 0 {
                Ok(h)
            } else {
                Err("invalid image url"@)
            },
            None => Err("invalid image url"@),
        },
    }
}

/// The host of an image URL, or why it may not be fetched.
pub fn fetch_url_host(raw_url: &str) -> (r: Result<String, String>)
    ensures
        match r {
            Ok(h) => spec_fetch_url_host(raw_url@) == Ok::<Seq<char>, Seq<char>>(h@),
            Err(e) => spec_fetch_url_host(raw_url@) == Err::<Seq<char>, Seq<char>>(e@),
        },
{
    match parse_url(raw_url) {
        Err(e) => Err(e),
        Ok(p) => {
            let scheme = chars_of(p.scheme.as_str());
            let http = vec_is(&scheme, "http") || vec_is(&scheme, "https");
            match p.host {
                Some(h) => if http && !h.as_str().is_empty() {
                    Ok(h)
                } else {
                    Err(own("invalid image url"))
                },
                None => Err(own("invalid image url")),
            }
        },
    }
}

fn is_forbidden_ip(ip: &HostIp) -> (r: bool)
    ensures
        r == spec_forbidden_ip(*ip),
{
    match ip {
        HostIp::V4(a) => {
            a[0] == 10 || (a[0] == 172 && 16 <= a[1] && a[1] <= 31) || (a[0] == 192 && a[1] == 168)
                || a[0] == 127 || (a[0] == 169 && a[1] == 254) || (a[0] == 0 && a[1] == 0 && a[2]
                == 0 && a[3] == 0)
        },
        HostIp::V6(g) => {
            let head_zero = g[0] == 0 && g[1] == 0 && g[2] == 0 && g[3] == 0 && g[4] == 0 && g[5]
                == 0 && g[6] == 0;
            proof {
                if head_zero {
                    assert forall|i: int| 0 <= i < 7 implies g@[i] == 0 by {
                        assert(i == 0 || i == 1 || i == 2 || i == 3 || i == 4 || i == 5 || i == 6);
                    }
                }
                if !head_zero {
                    assert(!(g@[0] == 0 && g@[1] == 0 && g@[2] == 0 && g@[3] == 0 && g@[4] == 0
                        && g@[5] == 0 && g@[6] == 0));
                }
            }
            (head_zero && (g[7] == 1 || g[7] == 0)) || (0xfc00 <= g[0] && g[0] <= 0xfdff) || (0xfe80
                <= g[0] && g[0] <= 0xfebf)
        },
        HostIp::NotIp => false,
    }
}

/// localhost (in any letter case, around white space) and the addresses
/// of `spec_forbidden_ip`.
pub fn is_forbidden_host(host: &str, ip: &HostIp) -> (r: bool)
    ensures
        r == (lower(trim(host@)) == "localhost"@ || spec_forbidden_ip(*ip)),
{
    let t = trim_str(host);
    let lt = lower_str(t.as_str());
    str_eq(lt.as_str(), "localhost") || is_forbidden_ip(ip)
}

/// Whether an image URL may be fetched. The URL must be an `http(s)` URL
/// with a host; unless private networks are allowed, its host must not be
/// localhost nor an address of `spec_forbidden_ip`, as `address_of` reads
/// it from the trimmed host. `address_of` is asked only for a host that
/// is not localhost.
pub fn check_fetch_target<F: Fn(String) -> HostIp>(
    raw_url: &str,
    allow_private_networks: bool,
    address_of: F,
) -> (r: Result<(), String>)
    requires
        forall|s: String| call_requires(address_of, (s,)),
    ensures
        match spec_fetch_url_host(raw_url@) {
            Err(e) => r matches Err(x) && x@ == e,
            Ok(h) => if allow_private_networks {
                r is Ok
            } else if lower(trim(h)) == "localhost"@ {
                r matches Err(x) && x@ == "forbidden target: "@ + h
            } else {
                exists|s: String, ip: HostIp|
                    #![trigger call_ensures(address_of, (s,), ip)]
                    s@ == trim(h) && call_ensures(address_of, (s,), ip) && match r {
                        Ok(_) => !spec_forbidden_ip(ip),
                        Err(x) => spec_forbidden_ip(ip) && x@ == "forbidden target: "@ + h,
                    }
            },
        },
{
    let host = match fetch_url_host(raw_url) {
        Ok(h) => h,
        Err(e) => {
            return Err(e);
        },
    };
    if allow_private_networks {
        return Ok(());
    }
    let t = trim_str(host.as_str());
    let lt = lower_str(t.as_str());
    if str_eq(lt.as_str(), "localhost") {
        return Err(concat("forbidden target: ", host.as_str()));
    }
    let ip = address_of(t);
    if is_forbidden_host(host.as_str(), &ip) {
        Err(concat("forbidden target: ", host.as_str()))
    } else {
        Ok(())
    }
}

} // verus!
