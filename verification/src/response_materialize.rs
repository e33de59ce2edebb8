//! Inline images of a response: large PNGs re-encoded when compression is
//! on, and the URL that replaces an uploaded image.
use vstd::prelude::*;

use crate::codec::{base64_decode, base64_encode, base64_standard, base64_standard_decoding};
use crate::config::{spec_resolved_prefix, Config};
use crate::image_io::{maybe_compress_png_bytes_with_options, spec_compress_png, PNG_COMPRESSION_THRESHOLD_BYTES};
use crate::json::JsonValue;
use crate::response_rewrite::{add_all, entries_of, entries_view, entry_view, patch_inline_data, patched, patches_view, scan_inline_data_base64_entries, InlineDataPatch};
use crate::text::{chars_of, lower, lower_vec, own, trim, trim_str, vec_is};
use crate::upload::{spec_wrap_external, wrap_external_proxy_url};
use crate::urls::form_urlencoded_bytes;

verus! {

pub type PatchModel = ((Seq<char>, Seq<char>), Option<Seq<char>>, Seq<char>);

/// The patches for the inline images (each `(mime, data)` once, in order):
/// an image whose data decodes and whose optimization changes it is
/// replaced by the optimized image; an optimization error is the result.
pub open spec fn optimization_patches(
    entries: Seq<(Seq<char>, Seq<char>)>,
    enabled: bool,
    threshold: nat,
    quality: u8,
) -> Result<Seq<PatchModel>, Seq<char>>
    decreases entries.len(),
{
    if entries.len() == 0 {
        Ok(Seq::empty())
    } else {
        match optimization_patches(entries.drop_last(), enabled, threshold, quality) {
            Err(e) => Err(e),
            Ok(ps) => {
                let (m, d) = entries.last();
                match base64_standard_decoding(d) {
                    Err(_) => Ok(ps),
                    Ok(bytes) => match spec_compress_png(bytes, m, enabled, threshold, quality) {
                        Err(e) => Err(e),
                        Ok((nm, nb)) => if nm == m && nb == bytes {
                            Ok(ps)
                        } else {
                            Ok(ps.push(((m, d), Some(nm), base64_standard(nb))))
                        },
                    },
                }
            },
        }
    }
}

/// `optimize_inline_data_images_with_options`: nothing when disabled; else
/// the document with its inline images patched, or the first error.
pub open spec fn spec_optimize(
    body: crate::json::Json,
    enabled: bool,
    threshold: nat,
    quality: u8,
) -> Result<crate::json::Json, Seq<char>> {
    if !enabled {
        Ok(body)
    } else {
        match optimization_patches(
            add_all(Seq::empty(), entries_of(body)),
            enabled,
            threshold,
            quality,
        ) {
            Err(e) => Err(e),
            Ok(ps) => Ok(patched(body, ps)),
        }
    }
}

/// Re-encodes the large PNG inline images of a document as smaller JPEGs
/// (when enabled); a failing re-encoding fails the call and leaves the
/// document as it was.
#[verifier::rlimit(100)]
#[verifier::spinoff_prover]
pub fn optimize_inline_data_images_with_options(
    body: &mut JsonValue,
    enabled: bool,
    threshold_bytes: usize,
    jpeg_quality: u8,
) -> (r: Result<(), String>)
    ensures
        match spec_optimize(old(body)@, enabled, threshold_bytes as nat, jpeg_quality) {
            Ok(v) => r is Ok && final(body)@ == v,
            Err(e) => (r matches Err(x) && x@ == e) && final(body)@ == old(body)@,
        },
{
    if !enabled {
        return Ok(());
    }
    let entries = scan_inline_data_base64_entries(body);
    let ghost es = entries_view(entries@);
    let mut patches: Vec<InlineDataPatch> = Vec::new();
    let mut i: usize = 0;
    proof {
        assert(es.take(0) =~= Seq::<(Seq<char>, Seq<char>)>::empty());
        assert(patches_view(patches@) =~= Seq::<PatchModel>::empty());
    }
    while i < entries.len()
        invariant
            0 <= i <= entries.len(),
            es == entries_view(entries@),
            es == add_all(Seq::empty(), entries_of(old(body)@)),
            body@ == old(body)@,
            enabled,
            optimization_patches(es.take(i as int), enabled, threshold_bytes as nat, jpeg_quality)
                == Ok::<Seq<PatchModel>, Seq<char>>(patches_view(patches@)),
        decreases entries.len() - i,
    {
        let e = &entries[i];
        proof {
            assert(es.take(i + 1).drop_last() =~= es.take(i as int));
            assert(es.take(i + 1).last() == entry_view(*e));
        }
        match base64_decode(e.data.as_str()) {
            Err(_) => {},
            Ok(bytes) => {
                match maybe_compress_png_bytes_with_options(
                    &bytes,
                    e.mime_type.as_str(),
                    enabled,
                    threshold_bytes,
                    jpeg_quality,
                ) {
                    Err(err) => {
                        proof {
                            let t = es.take(i + 1);
                            assert(t.last() == (e.mime_type@, e.data@));
                            assert(base64_standard_decoding(e.data@) == Ok::<Seq<u8>, Seq<char>>(bytes@));
                            assert(spec_compress_png(bytes@, e.mime_type@, enabled, threshold_bytes as nat, jpeg_quality)
                                == Err::<(Seq<char>, Seq<u8>), Seq<char>>(err@));
                            assert(optimization_patches(t, enabled, threshold_bytes as nat, jpeg_quality)
                                == Err::<Seq<PatchModel>, Seq<char>>(err@));
                            lemma_patches_err(es, i + 1, enabled, threshold_bytes as nat, jpeg_quality, err@);
                        }
                        return Err(err);
                    },
                    Ok(opt) => {
                        let same_mime = crate::text::str_eq(opt.mime_type.as_str(), e.mime_type.as_str());
                        let same_bytes = bytes_eq(&opt.bytes, &bytes);
                        if !(same_mime && same_bytes) {
                            let data = base64_encode(&opt.bytes);
                            let ghost before = patches@;
                            patches.push(
                                InlineDataPatch {
                                    entry: e.clone_entry(),
                                    mime_type: Some(opt.mime_type),
                                    data,
                                },
                            );
                            proof {
                                assert(patches_view(patches@) =~= patches_view(before).push(
                                    patches_view(patches@).last(),
                                ));
                            }
                        }
                    },
                }
            },
        }
        i += 1;
    }
    proof {
        assert(es.take(entries@.len() as int) =~= es);
    }
    patch_inline_data(body, patches.as_slice());
    Ok(())
}

/// An error part-way makes the whole list an error.
proof fn lemma_patches_err(
    es: Seq<(Seq<char>, Seq<char>)>,
    k: int,
    enabled: bool,
    threshold: nat,
    quality: u8,
    e: Seq<char>,
)
    requires
        0 <= k <= es.len(),
        optimization_patches(es.take(k), enabled, threshold, quality) == Err::<
            Seq<PatchModel>,
            Seq<char>,
        >(e),
    ensures
        optimization_patches(es, enabled, threshold, quality) == Err::<Seq<PatchModel>, Seq<char>>(
            e,
        ),
    decreases es.len() - k,
{
    if k < es.len() {
        assert(es.take(k + 1).drop_last() =~= es.take(k));
        lemma_patches_err(es, k + 1, enabled, threshold, quality, e);
    } else {
        assert(es.take(k) =~= es);
    }
}

fn bytes_eq(a: &Vec<u8>, b: &Vec<u8>) -> (r: bool)
    ensures
        r == (a@ == b@),
{
    if a.len() != b.len() {
        return false;
    }
    let mut i: usize = 0;
    while i < a.len()
        invariant
            a.len() == b.len(),
            0 <= i <= a.len(),
            forall|k: int| 0 <= k < i ==> a@[k] == b@[k],
        decreases a.len() - i,
    {
        if a[i] != b[i] {
            return false;
        }
        i += 1;
    }
    assert(a@ =~= b@);
    true
}

/// `optimize_inline_data_images_with_options` with the configured switch
/// and JPEG quality and the standard PNG threshold.
pub fn optimize_inline_data_images(body: &mut JsonValue, config: &Config) -> (r: Result<(), String>)
    ensures
        match spec_optimize(
            old(body)@,
            config.enable_image_compression,
            PNG_COMPRESSION_THRESHOLD_BYTES as nat,
            config.image_compression_jpeg_quality,
        ) {
            Ok(v) => r is Ok && final(body)@ == v,
            Err(e) => (r matches Err(x) && x@ == e) && final(body)@ == old(body)@,
        },
{
    optimize_inline_data_images_with_options(
        body,
        config.enable_image_compression,
        PNG_COMPRESSION_THRESHOLD_BYTES,
        config.image_compression_jpeg_quality,
    )
}

// ---------------------------------------------------------------------
// Output URLs
// ---------------------------------------------------------------------
pub open spec fn spec_should_proxy(proxy_standard_output_urls: bool, provider: Seq<char>) -> bool {
    proxy_standard_output_urls && lower(provider) != "r2"@
}

/// Whether an uploaded image's URL goes through the external image proxy:
/// when configured so, and not for R2 (which serves its own public URLs).
pub fn should_proxy_standard_output_url(config: &Config, provider: &str) -> (r: bool)
    ensures
        r == spec_should_proxy(config.proxy_standard_output_urls, provider@),
{
    let pv = chars_of(provider);
    let l = lower_vec(&pv);
    config.proxy_standard_output_urls && !vec_is(&l, "r2")
}

/// The URL that replaces an uploaded image: wrapped by the external image
/// proxy when `spec_should_proxy` holds and a proxy prefix is set.
pub open spec fn spec_output_url(
    proxy_standard_output_urls: bool,
    prefix: Seq<char>,
    provider: Seq<char>,
    url: Seq<char>,
) -> Seq<char> {
    if !spec_should_proxy(proxy_standard_output_urls, provider) || trim(prefix).len() == 0 {
        url
    } else {
        spec_wrap_external(prefix, url)
    }
}

/// Which uploaded URLs go through the external image proxy: with
/// `PROXY_STANDARD_OUTPUT_URLS` off, or for an R2 upload (any letter
/// case), or without a proxy prefix, the URL is kept as it is; otherwise
/// it is the trimmed prefix followed by the form-urlencoded URL.
pub proof fn law_output_url_follows_the_proxy_flag(prefix: Seq<char>, provider: Seq<char>, url: Seq<char>)
    ensures
        spec_output_url(false, prefix, provider, url) == url,
        lower(provider) == "r2"@ ==> spec_output_url(true, prefix, provider, url) == url,
        trim(prefix).len() == 0 ==> spec_output_url(true, prefix, provider, url) == url,
        lower(provider) != "r2"@ && trim(prefix).len() > 0 ==> spec_output_url(true, prefix, provider, url)
            == trim(prefix) + form_urlencoded_bytes(url),
{
}

/// The URL that replaces an uploaded image in the response.
pub fn standard_output_url(config: &Config, provider: &str, url: &str) -> (r: String)
    ensures
        r@ == spec_output_url(
            config.proxy_standard_output_urls,
            spec_resolved_prefix(config.external_image_proxy_prefix@, config.public_base_url@),
            provider@,
            url@,
        ),
{
    let prefix = config.resolved_external_image_proxy_prefix();
    let t = trim_str(prefix.as_str());
    if !should_proxy_standard_output_url(config, provider) || t.as_str().is_empty() {
        own(url)
    } else {
        wrap_external_proxy_url(prefix.as_str(), url)
    }
}

} // verus!
