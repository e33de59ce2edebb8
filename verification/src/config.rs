//! Runtime configuration read from an environment map.
use std::collections::HashMap;
use std::time::Duration;

use vstd::prelude::*;

use crate::text::{chars_of, concat, lemma_trim_idempotent, lower, lower_str, lower_vec, own, parse_u64_vec, parse_unsigned, seq_eq, split, split_vec, string_of, trim, trim_end, trim_start, trim_end_char, trim_end_char_vec, trim_start_char, trim_start_char_vec, trim_str, trim_vec};
use crate::urls::{opt_string_view, parse_url, parsed_url_view, url_parse_outcome, ParsedUrl};

verus! {

pub const DEFAULT_UPSTREAM_BASE_URL: &'static str = "https://magic666.top";
pub const DEFAULT_PORT: u16 = 8787;
pub const DEFAULT_UPSTREAM_TIMEOUT_MS: u64 = 600_000;
pub const DEFAULT_UPSTREAM_CONNECT_TIMEOUT_MS: u64 = 10_000;
pub const DEFAULT_UPSTREAM_TCP_KEEPALIVE_MS: u64 = 30_000;
pub const DEFAULT_UPSTREAM_POOL_IDLE_TIMEOUT_MS: u64 = 15_000;
pub const DEFAULT_SLOW_LOG_THRESHOLD_MS: u64 = 100_000;
pub const DEFAULT_IMAGE_FETCH_TIMEOUT_MS: u64 = 20_000;
pub const DEFAULT_UPLOAD_TIMEOUT_MS: u64 = 20_000;
pub const DEFAULT_IMAGE_TLS_HANDSHAKE_TIMEOUT_MS: u64 = 15_000;
pub const DEFAULT_UPLOAD_TLS_HANDSHAKE_TIMEOUT_MS: u64 = 10_000;
pub const DEFAULT_INSTANCE_MEMORY_BYTES: u64 = 2147483648;
pub const DEFAULT_INLINE_DATA_URL_CACHE_TTL_MS: u64 = 3_600_000;
pub const DEFAULT_INLINE_DATA_URL_CACHE_MAX_BYTES: u64 = 1073741824;
pub const DEFAULT_INLINE_DATA_URL_MEMORY_CACHE_MAX_BYTES: u64 = 104857600;
pub const DEFAULT_INLINE_DATA_URL_BACKGROUND_FETCH_TOTAL_TIMEOUT_MS: u64 = 90_000;
pub const DEFAULT_INLINE_DATA_URL_BACKGROUND_FETCH_MAX_INFLIGHT: usize = 128;
pub const DEFAULT_BLOB_INLINE_MAX_BYTES: u64 = 8388608;
pub const DEFAULT_BLOB_REQUEST_HOT_BUDGET_BYTES: u64 = 25165824;
pub const DEFAULT_BLOB_GLOBAL_HOT_BUDGET_BYTES: u64 = 402653184;
pub const DEFAULT_BLOB_SPILL_DIR: &'static str = "/tmp/rust-sync-proxy-blobs";
pub const DEFAULT_LEGACY_UGUU_UPLOAD_URL: &'static str = "https://uguu.se/upload";
pub const DEFAULT_LEGACY_KEFAN_UPLOAD_URL: &'static str = "https://ai.kefan.cn/api/upload/local";
pub const DEFAULT_IMAGE_COMPRESSION_JPEG_QUALITY: u8 = 97;

pub const GIB: u64 = 1073741824;

#[derive(Clone, Copy, Debug, PartialEq, Eq)]
pub struct BlobBudgetDefaults {
    pub inline_max_bytes: u64,
    pub request_hot_budget_bytes: u64,
    pub global_hot_budget_bytes: u64,
}

#[derive(Clone, Debug, PartialEq, Eq)]
pub struct Config {
    pub port: u16,
    pub upstream_base_url: String,
    pub upstream_api_key: String,
    pub upstream_timeout: Duration,
    pub upstream_connect_timeout: Duration,
    pub upstream_tcp_keepalive: Duration,
    pub upstream_pool_idle_timeout: Duration,
    pub image_host_mode: String,
    pub allowed_proxy_domains: Vec<String>,
    pub public_base_url: String,
    pub external_image_proxy_prefix: String,
    pub slow_log_threshold: Duration,
    pub proxy_standard_output_urls: bool,
    pub proxy_special_upstream_urls: bool,
    pub enable_image_compression: bool,
    pub enable_request_image_webp_optimization: bool,
    pub image_compression_jpeg_quality: u8,
    pub admin_password: String,
    pub image_fetch_timeout: Duration,
    pub image_tls_handshake_timeout: Duration,
    pub image_fetch_insecure_skip_verify: bool,
    pub image_fetch_external_proxy_domains: Vec<String>,
    pub inline_data_url_cache_dir: String,
    pub inline_data_url_cache_ttl: Duration,
    pub inline_data_url_cache_max_bytes: u64,
    pub inline_data_url_memory_cache_max_bytes: u64,
    pub inline_data_url_background_fetch_wait_timeout: Duration,
    pub inline_data_url_background_fetch_total_timeout: Duration,
    pub inline_data_url_background_fetch_max_inflight: usize,
    pub blob_inline_max_bytes: u64,
    pub blob_request_hot_budget_bytes: u64,
    pub blob_global_hot_budget_bytes: u64,
    pub blob_spill_dir: String,
    pub upload_timeout: Duration,
    pub upload_tls_handshake_timeout: Duration,
    pub upload_insecure_skip_verify: bool,
    pub legacy_uguu_upload_url: String,
    pub legacy_kefan_upload_url: String,
    pub r2_endpoint: String,
    pub r2_bucket: String,
    pub r2_access_key_id: String,
    pub r2_secret_access_key: String,
    pub r2_public_base_url: String,
    pub r2_object_prefix: String,
}

/// Why a configuration was refused.
#[derive(Clone, Debug, PartialEq, Eq)]
pub struct ConfigError {
    pub message: String,
}

impl ConfigError {
    /// The message, as the error's text.
    pub fn to_string(&self) -> (r: String)
        ensures
            r@ == self.message@,
    {
        self.message.clone()
    }
}

// ---------------------------------------------------------------------
// Trusted items
// ---------------------------------------------------------------------
/// The `Duration` that `Duration::from_millis` builds.
pub uninterp spec fn duration_from_millis(ms: u64) -> Duration;

/// Calls `std::time::Duration::from_millis`; the value is named
/// `duration_from_millis`.
#[verifier::external_body]
fn millis(ms: u64) -> (d: Duration)
    ensures
        d == duration_from_millis(ms),
{
    Duration::from_millis(ms)
}

/// Calls `HashMap::get` on the environment map and clones the value. The
/// contract states what the documentation of `get` says, over the map's
/// deep view.
#[verifier::external_body]
fn env_get(env_map: &HashMap<String, String>, key: &str) -> (r: Option<String>)
    ensures
        match r {
            Some(v) => env_map.deep_view().contains_key(key@) && env_map.deep_view()[key@] == v@,
            None => !env_map.deep_view().contains_key(key@),
        },
{
    env_map.get(key).cloned()
}

/// `Duration` is `Copy`; its `Clone::clone` returns a copy of the value,
/// as the standard library documents for `Copy` types.
pub assume_specification[ <Duration as Clone>::clone ](d: &Duration) -> (r: Duration)
    ensures
        r == *d,
;

// ---------------------------------------------------------------------
// Specifications
// ---------------------------------------------------------------------
pub open spec fn env_value(m: Map<Seq<char>, Seq<char>>, key: Seq<char>) -> Option<Seq<char>> {
    if m.contains_key(key) {
        Some(m[key])
    } else {
        None
    }
}

pub open spec fn parse_opt(v: Option<Seq<char>>, max: nat) -> Option<nat> {
    match v {
        Some(raw) => parse_unsigned(trim(raw), max),
        None => None,
    }
}

pub open spec fn spec_parse_port(raw: Seq<char>) -> Option<u16> {
    let t = trim(raw);
    if t.len() == 0 {
        None
    } else {
        match parse_unsigned(t, u16::MAX as nat) {
            Some(n) => Some(n as u16),
            None => None,
        }
    }
}

pub open spec fn spec_positive_u64(v: Option<Seq<char>>, d: u64) -> u64 {
    match parse_opt(v, u64::MAX as nat) {
        Some(n) => if n > 0 {
            n as u64
        } else {
            d
        },
        None => d,
    }
}

pub open spec fn spec_non_negative_u64(v: Option<Seq<char>>, d: u64) -> u64 {
    match parse_opt(v, u64::MAX as nat) {
        Some(n) => n as u64,
        None => d,
    }
}

pub open spec fn spec_non_negative_usize(v: Option<Seq<char>>, d: usize) -> usize {
    match parse_opt(v, usize::MAX as nat) {
        Some(n) => n as usize,
        None => d,
    }
}

pub open spec fn spec_jpeg_quality(v: Option<Seq<char>>, d: u8) -> u8 {
    match parse_opt(v, u8::MAX as nat) {
        Some(n) => if 1 <= n <= 100 {
            n as u8
        } else {
            d
        },
        None => d,
    }
}

pub open spec fn is_disabled(raw: Seq<char>) -> bool {
    let v = lower(trim(raw));
    v.len() == 0 || is_falsy(v)
}

pub open spec fn spec_cache_bytes(v: Option<Seq<char>>, d: u64) -> u64 {
    match v {
        Some(raw) => if is_disabled(trim(raw)) {
            0
        } else {
            match parse_unsigned(trim(raw), u64::MAX as nat) {
                Some(n) => n as u64,
                None => d,
            }
        },
        None => d,
    }
}

/// `parse_csv`: the trimmed, non-empty pieces between commas.
pub open spec fn spec_csv(raw: Seq<char>) -> Seq<Seq<char>> {
    split(raw, ',').map_values(|p: Seq<char>| trim(p)).filter(|p: Seq<char>| p.len() > 0)
}

pub open spec fn spec_optional_string(raw: Seq<char>) -> Seq<char> {
    if is_disabled(raw) {
        Seq::empty()
    } else {
        trim(raw)
    }
}

pub open spec fn is_http_scheme(s: Seq<char>) -> bool {
    s == "http"@ || s == "https"@
}

/// `parse_http_base_url`: the normalized URL or the error message.
pub open spec fn spec_http_base_url(raw: Seq<char>, env_name: Seq<char>) -> Result<
    Seq<char>,
    Seq<char>,
> {
    let t = trim(raw);
    if t.len() == 0 {
        Err(env_name + " is empty"@)
    } else {
        match url_parse_outcome(t) {
            Err(e) => Err("parse "@ + env_name + ": "@ + e),
            Ok(p) => spec_base_url_from_parts(p, env_name),
        }
    }
}

/// What `parse_http_base_url` makes of a parsed URL: an `http`/`https`
/// URL with a non-blank host, without fragment and trailing `/`.
pub open spec fn spec_base_url_from_parts(
    p: (Seq<char>, Option<Seq<char>>, Seq<char>, Seq<char>, Seq<char>),
    env_name: Seq<char>,
) -> Result<Seq<char>, Seq<char>> {
    if !is_http_scheme(p.0) {
        Err(env_name + " must use http or https"@)
    } else if (match p.1 {
        Some(h) => trim(h).len() == 0,
        None => true,
    }) {
        Err(env_name + " host is empty"@)
    } else {
        Ok(trim_end_char(p.2, '/'))
    }
}

pub open spec fn spec_optional_http_base_url(raw: Seq<char>) -> Seq<char> {
    if is_disabled(raw) {
        Seq::empty()
    } else {
        match spec_http_base_url(raw, "PUBLIC_BASE_URL"@) {
            Ok(u) => u,
            Err(_) => Seq::empty(),
        }
    }
}

pub open spec fn is_truthy(v: Seq<char>) -> bool {
    v == "1"@ || v == "true"@ || v == "yes"@ || v == "y"@ || v == "on"@ || v == "enable"@ || v
        == "enabled"@
}

pub open spec fn is_falsy(v: Seq<char>) -> bool {
    v == "0"@ || v == "false"@ || v == "no"@ || v == "n"@ || v == "off"@ || v == "disable"@ || v
        == "disabled"@ || v == "none"@
}

pub open spec fn spec_bool(v: Option<Seq<char>>, d: bool) -> bool {
    match v {
        Some(raw) => {
            let l = lower(trim(raw));
            if is_truthy(l) {
                true
            } else if is_falsy(l) {
                false
            } else {
                d
            }
        },
        None => d,
    }
}

/// A boolean setting is read from its value trimmed and in lower case:
/// `0`, `false`, `no`, `n`, `off`, `disable`, `disabled` and `none` switch
/// it off and `1`, `true`, `yes`, `y`, `on`, `enable` and `enabled` switch
/// it on, whatever its default; an absent setting, or any other value,
/// keeps the default.
pub proof fn law_bool_setting_words(raw: Seq<char>, default: bool)
    ensures
        ({
            let l = lower(trim(raw));
            l == "0"@ || l == "false"@ || l == "no"@ || l == "n"@ || l == "off"@ || l == "disable"@
                || l == "disabled"@ || l == "none"@
        }) ==> spec_bool(Some(raw), default) == false,
        ({
            let l = lower(trim(raw));
            l == "1"@ || l == "true"@ || l == "yes"@ || l == "y"@ || l == "on"@ || l == "enable"@
                || l == "enabled"@
        }) ==> spec_bool(Some(raw), default) == true,
        spec_bool(None, default) == default,
{
    reveal_strlit("0");
    reveal_strlit("false");
    reveal_strlit("no");
    reveal_strlit("n");
    reveal_strlit("off");
    reveal_strlit("disable");
    reveal_strlit("disabled");
    reveal_strlit("none");
    reveal_strlit("1");
    reveal_strlit("true");
    reveal_strlit("yes");
    reveal_strlit("y");
    reveal_strlit("on");
    reveal_strlit("enable");
    reveal_strlit("enabled");
    let l = lower(trim(raw));
    // Words of equal length that switch the setting on and off differ in
    // their first letter.
    assert("0"@[0] != "1"@[0] && "0"@[0] != "y"@[0] && "n"@[0] != "1"@[0] && "n"@[0] != "y"@[0]);
    assert("no"@[0] != "on"@[0]);
    assert("off"@[0] != "yes"@[0]);
    assert("none"@[0] != "true"@[0]);
    assert("disable"@[0] != "enabled"@[0]);
    // so a value spelling one of the first cannot spell one of the second.
    if l.len() > 0 {
        assert(l[0] == lower(trim(raw))[0]);
    }
}

/// `PROXY_STANDARD_OUTPUT_URLS` and `PROXY_SPECIAL_UPSTREAM_URLS` default
/// to on and are switched off by a false word such as `false` or `0`.
pub proof fn law_proxy_url_flags_can_be_switched_off(c: Config, m: Map<Seq<char>, Seq<char>>)
    requires
        config_matches(c, m),
    ensures
        !m.contains_key("PROXY_STANDARD_OUTPUT_URLS"@) ==> c.proxy_standard_output_urls,
        !m.contains_key("PROXY_SPECIAL_UPSTREAM_URLS"@) ==> c.proxy_special_upstream_urls,
        m.contains_key("PROXY_STANDARD_OUTPUT_URLS"@) && (lower(
            trim(m["PROXY_STANDARD_OUTPUT_URLS"@]),
        ) == "false"@ || lower(trim(m["PROXY_STANDARD_OUTPUT_URLS"@])) == "0"@) ==> !c.proxy_standard_output_urls,
        m.contains_key("PROXY_SPECIAL_UPSTREAM_URLS"@) && (lower(
            trim(m["PROXY_SPECIAL_UPSTREAM_URLS"@]),
        ) == "false"@ || lower(trim(m["PROXY_SPECIAL_UPSTREAM_URLS"@])) == "0"@) ==> !c.proxy_special_upstream_urls,
{
    if m.contains_key("PROXY_STANDARD_OUTPUT_URLS"@) {
        law_bool_setting_words(m["PROXY_STANDARD_OUTPUT_URLS"@], true);
    }
    if m.contains_key("PROXY_SPECIAL_UPSTREAM_URLS"@) {
        law_bool_setting_words(m["PROXY_SPECIAL_UPSTREAM_URLS"@], true);
    }
}

pub open spec fn spec_default_domains() -> Seq<Seq<char>> {
    seq!["ai.kefan.cn"@, "uguu.se"@, ".uguu.se"@, ".aitohumanize.com"@]
}

pub open spec fn spec_budget(memory_bytes: u64) -> BlobBudgetDefaults {
    if memory_bytes >= 8 * GIB {
        BlobBudgetDefaults {
            inline_max_bytes: 16777216,
            request_hot_budget_bytes: 67108864,
            global_hot_budget_bytes: 1610612736,
        }
    } else if memory_bytes >= 4 * GIB {
        BlobBudgetDefaults {
            inline_max_bytes: 12582912,
            request_hot_budget_bytes: 41943040,
            global_hot_budget_bytes: 805306368,
        }
    } else {
        BlobBudgetDefaults {
            inline_max_bytes: DEFAULT_BLOB_INLINE_MAX_BYTES,
            request_hot_budget_bytes: DEFAULT_BLOB_REQUEST_HOT_BUDGET_BYTES,
            global_hot_budget_bytes: DEFAULT_BLOB_GLOBAL_HOT_BUDGET_BYTES,
        }
    }
}

pub open spec fn strings_view(v: Seq<String>) -> Seq<Seq<char>> {
    v.map_values(|s: String| s@)
}

pub open spec fn nonempty_trimmed_or(v: Option<Seq<char>>, d: Seq<char>) -> Seq<char> {
    match v {
        Some(raw) => if trim(raw).len() > 0 {
            trim(raw)
        } else {
            d
        },
        None => d,
    }
}

pub open spec fn trimmed_or_empty(v: Option<Seq<char>>) -> Seq<char> {
    match v {
        Some(raw) => trim(raw),
        None => Seq::empty(),
    }
}

pub open spec fn optional_string_or_empty(v: Option<Seq<char>>) -> Seq<char> {
    match v {
        Some(raw) => spec_optional_string(raw),
        None => Seq::empty(),
    }
}

pub open spec fn trim_slashes(s: Seq<char>) -> Seq<char> {
    trim_end_char(trim_start_char(s, '/'), '/')
}

pub open spec fn spec_object_prefix(v: Option<Seq<char>>) -> Seq<char> {
    match v {
        Some(raw) => if trim_slashes(trim(raw)).len() > 0 {
            trim_slashes(trim(raw))
        } else {
            "images"@
        },
        None => "images"@,
    }
}

pub open spec fn spec_spill_dir(v: Option<Seq<char>>) -> Seq<char> {
    match v {
        Some(raw) => if spec_optional_string(raw).len() > 0 {
            spec_optional_string(raw)
        } else {
            DEFAULT_BLOB_SPILL_DIR@
        },
        None => DEFAULT_BLOB_SPILL_DIR@,
    }
}

pub open spec fn spec_domains(v: Option<Seq<char>>) -> Seq<Seq<char>> {
    match v {
        Some(raw) => if spec_csv(raw).len() > 0 {
            spec_csv(raw)
        } else {
            spec_default_domains()
        },
        None => spec_default_domains(),
    }
}

/// The configuration checks and their messages; `None` when the
/// configuration is accepted.
pub open spec fn spec_validation_error(
    mode: Seq<char>,
    endpoint: Seq<char>,
    bucket: Seq<char>,
    access_key_id: Seq<char>,
    secret: Seq<char>,
    public_base: Seq<char>,
) -> Option<Seq<char>> {
    if !(mode.len() == 0 || mode == "legacy"@ || mode == "r2"@ || mode == "r2_then_legacy"@) {
        Some("IMAGE_HOST_MODE must be one of legacy, r2, r2_then_legacy, got "@ + mode)
    } else if mode == "r2"@ || mode == "r2_then_legacy"@ {
        let req = " is required when IMAGE_HOST_MODE is r2 or r2_then_legacy"@;
        if trim(endpoint).len() == 0 {
            Some("R2_ENDPOINT"@ + req)
        } else if trim(bucket).len() == 0 {
            Some("R2_BUCKET"@ + req)
        } else if trim(access_key_id).len() == 0 {
            Some("R2_ACCESS_KEY_ID"@ + req)
        } else if trim(secret).len() == 0 {
            Some("R2_SECRET_ACCESS_KEY"@ + req)
        } else if trim(public_base).len() == 0 {
            Some("R2_PUBLIC_BASE_URL"@ + req)
        } else {
            match spec_http_base_url(endpoint, "R2_ENDPOINT"@) {
                Err(e) => Some("R2_ENDPOINT is invalid: "@ + e),
                Ok(_) => match spec_http_base_url(public_base, "R2_PUBLIC_BASE_URL"@) {
                    Err(e) => Some(e),
                    Ok(_) => None,
                },
            }
        }
    } else {
        None
    }
}

/// The `IMAGE_HOST_MODE` the configuration ends up with.
pub open spec fn spec_mode(m: Map<Seq<char>, Seq<char>>) -> Seq<char> {
    lower(nonempty_trimmed_or(env_value(m, "IMAGE_HOST_MODE"@), "legacy"@))
}

pub open spec fn config_error_of(m: Map<Seq<char>, Seq<char>>) -> Option<Seq<char>> {
    spec_validation_error(
        spec_mode(m),
        trimmed_or_empty(env_value(m, "R2_ENDPOINT"@)),
        trimmed_or_empty(env_value(m, "R2_BUCKET"@)),
        trimmed_or_empty(env_value(m, "R2_ACCESS_KEY_ID"@)),
        trimmed_or_empty(env_value(m, "R2_SECRET_ACCESS_KEY"@)),
        trimmed_or_empty(env_value(m, "R2_PUBLIC_BASE_URL"@)),
    )
}

/// The setting `key` is absent or blank.
pub open spec fn setting_blank(m: Map<Seq<char>, Seq<char>>, key: Seq<char>) -> bool {
    trimmed_or_empty(env_value(m, key)).len() == 0
}

/// `raw` is an `http` or `https` URL with a host, as the R2 URL settings
/// must be.
pub open spec fn is_usable_http_url(raw: Seq<char>) -> bool {
    let t = trim(raw);
    t.len() > 0 && match url_parse_outcome(t) {
        Ok(p) => is_http_scheme(p.0) && match p.1 {
            Some(h) => trim(h).len() > 0,
            None => false,
        },
        Err(_) => false,
    }
}

/// The configuration is refused exactly when `IMAGE_HOST_MODE` names no
/// known mode, or names an R2 mode while one of the R2 settings is absent
/// or blank, or the R2 endpoint or public base URL is not an `http(s)` URL
/// with a host.
pub proof fn law_config_refused_exactly_when(m: Map<Seq<char>, Seq<char>>)
    ensures
        config_error_of(m) is Some <==> ({
            let mode = spec_mode(m);
            let r2 = mode == "r2"@ || mode == "r2_then_legacy"@;
            ||| !(mode == "legacy"@ || r2)
            ||| r2 && (setting_blank(m, "R2_ENDPOINT"@) || setting_blank(m, "R2_BUCKET"@)
                || setting_blank(m, "R2_ACCESS_KEY_ID"@) || setting_blank(
                m,
                "R2_SECRET_ACCESS_KEY"@,
            ) || setting_blank(m, "R2_PUBLIC_BASE_URL"@) || !is_usable_http_url(
                trimmed_or_empty(env_value(m, "R2_ENDPOINT"@)),
            ) || !is_usable_http_url(trimmed_or_empty(env_value(m, "R2_PUBLIC_BASE_URL"@))))
        }),
{
    reveal_strlit("legacy");
    let v = env_value(m, "IMAGE_HOST_MODE"@);
    assert(nonempty_trimmed_or(v, "legacy"@).len() > 0);
    assert(spec_mode(m).len() > 0);
    assert forall|k: Seq<char>| true implies trim(trimmed_or_empty(#[trigger] env_value(m, k)))
        == trimmed_or_empty(env_value(m, k)) by {
        match env_value(m, k) {
            Some(raw) => lemma_trim_idempotent(raw),
            None => {
                assert(trim_start(Seq::<char>::empty()) == Seq::<char>::empty());
                assert(trim_end(Seq::<char>::empty()) == Seq::<char>::empty());
            },
        }
    }
    let ep = trimmed_or_empty(env_value(m, "R2_ENDPOINT"@));
    let pb = trimmed_or_empty(env_value(m, "R2_PUBLIC_BASE_URL"@));
    assert(spec_http_base_url(ep, "R2_ENDPOINT"@) is Ok <==> is_usable_http_url(ep));
    assert(spec_http_base_url(pb, "R2_PUBLIC_BASE_URL"@) is Ok <==> is_usable_http_url(pb));
}

/// Every field of the configuration read from the environment map `m`.
pub open spec fn config_matches(c: Config, m: Map<Seq<char>, Seq<char>>) -> bool {
    let e = |k: Seq<char>| env_value(m, k);
    let budget = spec_budget(
        spec_non_negative_u64(e("INSTANCE_MEMORY_BYTES"@), DEFAULT_INSTANCE_MEMORY_BYTES),
    );
    let image_fetch_ms = spec_positive_u64(
        e("IMAGE_FETCH_TIMEOUT_MS"@),
        DEFAULT_IMAGE_FETCH_TIMEOUT_MS,
    );
    &&& c.port == (match e("PORT"@) {
        Some(raw) => match spec_parse_port(raw) {
            Some(p) => p,
            None => DEFAULT_PORT,
        },
        None => DEFAULT_PORT,
    })
    &&& c.upstream_base_url@ == nonempty_trimmed_or(
        e("UPSTREAM_BASE_URL"@),
        DEFAULT_UPSTREAM_BASE_URL@,
    )
    &&& c.upstream_api_key@ == (match e("UPSTREAM_API_KEY"@) {
        Some(k) => k,
        None => Seq::empty(),
    })
    &&& c.upstream_timeout == duration_from_millis(
        spec_positive_u64(e("UPSTREAM_TIMEOUT_MS"@), DEFAULT_UPSTREAM_TIMEOUT_MS),
    )
    &&& c.upstream_connect_timeout == duration_from_millis(
        spec_positive_u64(e("UPSTREAM_CONNECT_TIMEOUT_MS"@), DEFAULT_UPSTREAM_CONNECT_TIMEOUT_MS),
    )
    &&& c.upstream_tcp_keepalive == duration_from_millis(
        spec_positive_u64(e("UPSTREAM_TCP_KEEPALIVE_MS"@), DEFAULT_UPSTREAM_TCP_KEEPALIVE_MS),
    )
    &&& c.upstream_pool_idle_timeout == duration_from_millis(
        spec_positive_u64(
            e("UPSTREAM_POOL_IDLE_TIMEOUT_MS"@),
            DEFAULT_UPSTREAM_POOL_IDLE_TIMEOUT_MS,
        ),
    )
    &&& c.image_host_mode@ == spec_mode(m)
    &&& strings_view(c.allowed_proxy_domains@) == spec_domains(e("ALLOWED_PROXY_DOMAINS"@))
    &&& c.public_base_url@ == (match e("PUBLIC_BASE_URL"@) {
        Some(raw) => spec_optional_http_base_url(raw),
        None => Seq::empty(),
    })
    &&& c.external_image_proxy_prefix@ == optional_string_or_empty(
        e("EXTERNAL_IMAGE_PROXY_PREFIX"@),
    )
    &&& c.slow_log_threshold == duration_from_millis(
        spec_non_negative_u64(e("SLOW_LOG_THRESHOLD_MS"@), DEFAULT_SLOW_LOG_THRESHOLD_MS),
    )
    &&& c.proxy_standard_output_urls == spec_bool(e("PROXY_STANDARD_OUTPUT_URLS"@), true)
    &&& c.proxy_special_upstream_urls == spec_bool(e("PROXY_SPECIAL_UPSTREAM_URLS"@), true)
    &&& c.enable_image_compression == spec_bool(e("ENABLE_IMAGE_COMPRESSION"@), false)
    &&& c.enable_request_image_webp_optimization == spec_bool(
        e("ENABLE_REQUEST_IMAGE_WEBP_OPTIMIZATION"@),
        false,
    )
    &&& c.image_compression_jpeg_quality == spec_jpeg_quality(
        e("IMAGE_COMPRESSION_JPEG_QUALITY"@),
        DEFAULT_IMAGE_COMPRESSION_JPEG_QUALITY,
    )
    &&& c.admin_password@ == optional_string_or_empty(e("ADMIN_PASSWORD"@))
    &&& c.image_fetch_timeout == duration_from_millis(image_fetch_ms)
    &&& c.image_tls_handshake_timeout == duration_from_millis(
        spec_positive_u64(
            e("IMAGE_TLS_HANDSHAKE_TIMEOUT_MS"@),
            DEFAULT_IMAGE_TLS_HANDSHAKE_TIMEOUT_MS,
        ),
    )
    &&& c.image_fetch_insecure_skip_verify == spec_bool(
        e("IMAGE_FETCH_INSECURE_SKIP_VERIFY"@),
        false,
    )
    &&& strings_view(c.image_fetch_external_proxy_domains@) == (match e(
        "IMAGE_FETCH_EXTERNAL_PROXY_DOMAINS"@,
    ) {
        Some(raw) => spec_csv(raw),
        None => Seq::empty(),
    })
    &&& c.inline_data_url_cache_dir@ == optional_string_or_empty(e("INLINE_DATA_URL_CACHE_DIR"@))
    &&& c.inline_data_url_cache_ttl == duration_from_millis(
        spec_non_negative_u64(
            e("INLINE_DATA_URL_CACHE_TTL_MS"@),
            DEFAULT_INLINE_DATA_URL_CACHE_TTL_MS,
        ),
    )
    &&& c.inline_data_url_cache_max_bytes == spec_non_negative_u64(
        e("INLINE_DATA_URL_CACHE_MAX_BYTES"@),
        DEFAULT_INLINE_DATA_URL_CACHE_MAX_BYTES,
    )
    &&& c.inline_data_url_memory_cache_max_bytes == spec_cache_bytes(
        e("INLINE_DATA_URL_MEMORY_CACHE_MAX_BYTES"@),
        DEFAULT_INLINE_DATA_URL_MEMORY_CACHE_MAX_BYTES,
    )
    &&& c.inline_data_url_background_fetch_wait_timeout == duration_from_millis(
        spec_non_negative_u64(e("INLINE_DATA_URL_BACKGROUND_FETCH_WAIT_TIMEOUT_MS"@), image_fetch_ms),
    )
    &&& c.inline_data_url_background_fetch_total_timeout == duration_from_millis(
        spec_non_negative_u64(
            e("INLINE_DATA_URL_BACKGROUND_FETCH_TOTAL_TIMEOUT_MS"@),
            DEFAULT_INLINE_DATA_URL_BACKGROUND_FETCH_TOTAL_TIMEOUT_MS,
        ),
    )
    &&& c.inline_data_url_background_fetch_max_inflight == spec_non_negative_usize(
        e("INLINE_DATA_URL_BACKGROUND_FETCH_MAX_INFLIGHT"@),
        DEFAULT_INLINE_DATA_URL_BACKGROUND_FETCH_MAX_INFLIGHT,
    )
    &&& c.blob_inline_max_bytes == spec_non_negative_u64(
        e("BLOB_INLINE_MAX_BYTES"@),
        budget.inline_max_bytes,
    )
    &&& c.blob_request_hot_budget_bytes == spec_non_negative_u64(
        e("BLOB_REQUEST_HOT_BUDGET_BYTES"@),
        budget.request_hot_budget_bytes,
    )
    &&& c.blob_global_hot_budget_bytes == spec_non_negative_u64(
        e("BLOB_GLOBAL_HOT_BUDGET_BYTES"@),
        budget.global_hot_budget_bytes,
    )
    &&& c.blob_spill_dir@ == spec_spill_dir(e("BLOB_SPILL_DIR"@))
    &&& c.upload_timeout == duration_from_millis(
        spec_positive_u64(e("UPLOAD_TIMEOUT_MS"@), DEFAULT_UPLOAD_TIMEOUT_MS),
    )
    &&& c.upload_tls_handshake_timeout == duration_from_millis(
        spec_positive_u64(
            e("UPLOAD_TLS_HANDSHAKE_TIMEOUT_MS"@),
            DEFAULT_UPLOAD_TLS_HANDSHAKE_TIMEOUT_MS,
        ),
    )
    &&& c.upload_insecure_skip_verify == spec_bool(e("UPLOAD_INSECURE_SKIP_VERIFY"@), false)
    &&& c.legacy_uguu_upload_url@ == DEFAULT_LEGACY_UGUU_UPLOAD_URL@
    &&& c.legacy_kefan_upload_url@ == DEFAULT_LEGACY_KEFAN_UPLOAD_URL@
    &&& c.r2_endpoint@ == trimmed_or_empty(e("R2_ENDPOINT"@))
    &&& c.r2_bucket@ == trimmed_or_empty(e("R2_BUCKET"@))
    &&& c.r2_access_key_id@ == trimmed_or_empty(e("R2_ACCESS_KEY_ID"@))
    &&& c.r2_secret_access_key@ == trimmed_or_empty(e("R2_SECRET_ACCESS_KEY"@))
    &&& c.r2_public_base_url@ == trimmed_or_empty(e("R2_PUBLIC_BASE_URL"@))
    &&& c.r2_object_prefix@ == spec_object_prefix(e("R2_OBJECT_PREFIX"@))
}

/// `resolved_external_image_proxy_prefix`.
pub open spec fn spec_resolved_prefix(external: Seq<char>, public_base: Seq<char>) -> Seq<char> {
    if trim(external).len() > 0 {
        trim(external)
    } else if trim_end_char(trim(public_base), '/').len() == 0 {
        Seq::empty()
    } else {
        trim_end_char(trim(public_base), '/') + "/proxy/image?url="@
    }
}

/// The prefix of the external image proxy: the configured prefix
/// (trimmed) when set; otherwise the public base URL, trimmed and without
/// trailing `/`, followed by `/proxy/image?url=`; empty when neither is
/// set.
pub proof fn law_resolved_prefix_prefers_the_external_proxy(external: Seq<char>, public_base: Seq<char>)
    ensures
        trim(external).len() > 0 ==> spec_resolved_prefix(external, public_base) == trim(external),
        trim(external).len() == 0 && trim_end_char(trim(public_base), '/').len() > 0
            ==> spec_resolved_prefix(external, public_base) == trim_end_char(trim(public_base), '/')
            + "/proxy/image?url="@,
        trim(external).len() == 0 && trim_end_char(trim(public_base), '/').len() == 0
            ==> spec_resolved_prefix(external, public_base).len() == 0,
{
}

// ---------------------------------------------------------------------
// Exec
// ---------------------------------------------------------------------
fn opt_trimmed(value: &Option<String>) -> (r: Option<Vec<char>>)
    ensures
        match r {
            Some(t) => *value is Some && t@ == trim(value->0@),
            None => *value is None,
        },
{
    match value {
        Some(raw) => {
            let v = chars_of(raw.as_str());
            Some(trim_vec(&v))
        },
        None => None,
    }
}

/// `value.and_then(|raw| raw.trim().parse::<u64>().ok())`.
fn parse_u64_opt(value: &Option<String>) -> (r: Option<u64>)
    ensures
        match r {
            Some(n) => parse_opt(opt_string_view(*value), u64::MAX as nat) == Some(n as nat),
            None => parse_opt(opt_string_view(*value), u64::MAX as nat) == None::<nat>,
        },
{
    match opt_trimmed(value) {
        Some(t) => parse_u64_vec(&t),
        None => None,
    }
}

fn parse_port(raw: &str) -> (r: Option<u16>)
    ensures
        r == spec_parse_port(raw@),
{
    let v = chars_of(raw);
    let t = trim_vec(&v);
    if t.len() == 0 {
        return None;
    }
    match parse_u64_vec(&t) {
        Some(n) => if n <= 65535 {
            Some(n as u16)
        } else {
            None
        },
        None => None,
    }
}

fn parse_positive_u64_with_default(value: &Option<String>, default_value: u64) -> (r: u64)
    ensures
        r == spec_positive_u64(opt_string_view(*value), default_value),
{
    match parse_u64_opt(value) {
        Some(parsed) => if parsed > 0 {
            parsed
        } else {
            default_value
        },
        None => default_value,
    }
}

fn parse_non_negative_u64_with_default(value: &Option<String>, default_value: u64) -> (r: u64)
    ensures
        r == spec_non_negative_u64(opt_string_view(*value), default_value),
{
    match parse_u64_opt(value) {
        Some(parsed) => parsed,
        None => default_value,
    }
}

fn parse_non_negative_usize_with_default(value: &Option<String>, default_value: usize) -> (r:
    usize)
    ensures
        r == spec_non_negative_usize(opt_string_view(*value), default_value),
{
    match parse_u64_opt(value) {
        Some(parsed) => if parsed as u128 <= usize::MAX as u128 {
            parsed as usize
        } else {
            default_value
        },
        None => {
            proof {
                if let Some(raw) = opt_string_view(*value) {
                    // a value too large for u64 is too large for usize
                    if let Some(n) = parse_unsigned(trim(raw), usize::MAX as nat) {
                        assert(n <= u64::MAX);
                    }
                }
            }
            default_value
        },
    }
}

fn parse_jpeg_quality(value: &Option<String>, default_value: u8) -> (r: u8)
    ensures
        r == spec_jpeg_quality(opt_string_view(*value), default_value),
{
    match parse_u64_opt(value) {
        Some(parsed) => if 1 <= parsed && parsed <= 100 {
            parsed as u8
        } else {
            default_value
        },
        None => {
            proof {
                if let Some(raw) = opt_string_view(*value) {
                    if let Some(n) = parse_unsigned(trim(raw), u8::MAX as nat) {
                        assert(n <= u64::MAX);
                    }
                }
            }
            default_value
        },
    }
}

/// One of the words that switch a setting off (or an empty value).
fn is_disabled_value(raw: &str) -> (r: bool)
    ensures
        r == is_disabled(raw@),
{
    let v = chars_of(raw);
    let t = trim_vec(&v);
    let l = lower_vec(&t);
    l.len() == 0 || is_falsy_word(&l)
}

fn parse_cache_bytes(value: &Option<String>, default_value: u64) -> (r: u64)
    ensures
        r == spec_cache_bytes(opt_string_view(*value), default_value),
{
    match value {
        Some(raw) => {
            let t = trim_str(raw.as_str());
            if is_disabled_value(t.as_str()) {
                0
            } else {
                let tv = chars_of(t.as_str());
                match parse_u64_vec(&tv) {
                    Some(n) => n,
                    None => default_value,
                }
            }
        },
        None => default_value,
    }
}

fn parse_wait_timeout_ms(value: &Option<String>, default_value: u64) -> (r: u64)
    ensures
        r == spec_non_negative_u64(opt_string_view(*value), default_value),
{
    parse_non_negative_u64_with_default(value, default_value)
}

/// The trimmed, non-empty comma-separated pieces of `raw`.
pub(crate) fn parse_csv(raw: &str) -> (r: Vec<String>)
    ensures
        strings_view(r@) == spec_csv(raw@),
{
    let v = chars_of(raw);
    let pieces = split_vec(&v, ',');
    let ghost trimmed = split(raw@, ',').map_values(|p: Seq<char>| trim(p));
    let mut out: Vec<String> = Vec::new();
    let mut i: usize = 0;
    proof {
        assert(trimmed.take(0).filter(|p: Seq<char>| p.len() > 0) =~= Seq::<Seq<char>>::empty());
    }
    while i < pieces.len()
        invariant
            0 <= i <= pieces.len(),
            pieces@.len() == split(raw@, ',').len(),
            forall|k: int| 0 <= k < pieces@.len() ==> #[trigger] pieces@[k]@ == split(raw@, ',')[k],
            trimmed == split(raw@, ',').map_values(|p: Seq<char>| trim(p)),
            strings_view(out@) == trimmed.take(i as int).filter(|p: Seq<char>| p.len() > 0),
        decreases pieces.len() - i,
    {
        let t = trim_vec(&pieces[i]);
        proof {
            assert(trimmed.take(i + 1).drop_last() =~= trimmed.take(i as int));
            assert(trimmed[i as int] == t@);
            reveal(Seq::filter);
        }
        if t.len() > 0 {
            let ghost before = out@;
            out.push(string_of(&t));
            proof {
                assert(strings_view(out@) =~= strings_view(before).push(t@));
            }
        }
        i += 1;
    }
    proof {
        assert(trimmed.take(pieces.len() as int) =~= trimmed);
    }
    out
}

fn parse_optional_string_with_disabled(raw: &str) -> (r: String)
    ensures
        r@ == spec_optional_string(raw@),
{
    if is_disabled_value(raw) {
        String::new()
    } else {
        trim_str(raw)
    }
}

fn normalize_optional_http_base_url(raw: &str) -> (r: String)
    ensures
        r@ == spec_optional_http_base_url(raw@),
{
    if is_disabled_value(raw) {
        return String::new();
    }
    match parse_http_base_url(raw, "PUBLIC_BASE_URL") {
        Ok(u) => u,
        Err(_) => String::new(),
    }
}

/// An `http`/`https` URL with a host, without fragment or trailing `/`.
fn parse_http_base_url(raw: &str, env_name: &str) -> (r: Result<String, String>)
    ensures
        match r {
            Ok(u) => spec_http_base_url(raw@, env_name@) == Ok::<Seq<char>, Seq<char>>(u@),
            Err(e) => spec_http_base_url(raw@, env_name@) == Err::<Seq<char>, Seq<char>>(e@),
        },
{
    let trimmed = trim_str(raw);
    if trimmed.as_str().is_empty() {
        return Err(concat(env_name, " is empty"));
    }
    match parse_url(trimmed.as_str()) {
        Err(e) => {
            let a = concat("parse ", env_name);
            let b = concat(a.as_str(), ": ");
            Err(concat(b.as_str(), e.as_str()))
        },
        Ok(parsed) => base_url_from_parsed(&parsed, env_name),
    }
}

/// Checks a parsed URL for `parse_http_base_url`: the scheme must be `http`
/// or `https` and the host non-blank; the result is the URL without
/// fragment and without trailing `/`.
pub fn base_url_from_parsed(parsed: &ParsedUrl, env_name: &str) -> (r: Result<String, String>)
    ensures
        match r {
            Ok(u) => spec_base_url_from_parts(parsed_url_view(*parsed), env_name@) == Ok::<
                Seq<char>,
                Seq<char>,
            >(u@),
            Err(e) => spec_base_url_from_parts(parsed_url_view(*parsed), env_name@) == Err::<
                Seq<char>,
                Seq<char>,
            >(e@),
        },
{
    let scheme = chars_of(parsed.scheme.as_str());
    if !(eq_word(&scheme, "http") || eq_word(&scheme, "https")) {
        return Err(concat(env_name, " must use http or https"));
    }
    let host_empty = match &parsed.host {
        Some(h) => trim_str(h.as_str()).as_str().is_empty(),
        None => true,
    };
    if host_empty {
        return Err(concat(env_name, " host is empty"));
    }
    let full = chars_of(parsed.without_fragment.as_str());
    let out = trim_end_char_vec(&full, '/');
    Ok(string_of(&out))
}

fn parse_bool(value: &Option<String>, default_value: bool) -> (r: bool)
    ensures
        r == spec_bool(opt_string_view(*value), default_value),
{
    match value {
        Some(raw) => {
            let v = chars_of(raw.as_str());
            let t = trim_vec(&v);
            let l = lower_vec(&t);
            if is_truthy_word(&l) {
                true
            } else if is_falsy_word(&l) {
                false
            } else {
                default_value
            }
        },
        None => default_value,
    }
}

/// Whether `l` spells `w`.
fn eq_word(l: &Vec<char>, w: &str) -> (r: bool)
    ensures
        r == (l@ == w@),
{
    let wv = chars_of(w);
    seq_eq(l, &wv)
}

fn is_truthy_word(l: &Vec<char>) -> (r: bool)
    ensures
        r == is_truthy(l@),
{
    eq_word(l, "1") || eq_word(l, "true") || eq_word(l, "yes") || eq_word(l, "y") || eq_word(
        l,
        "on",
    ) || eq_word(l, "enable") || eq_word(l, "enabled")
}

fn is_falsy_word(l: &Vec<char>) -> (r: bool)
    ensures
        r == is_falsy(l@),
{
    eq_word(l, "0") || eq_word(l, "false") || eq_word(l, "no") || eq_word(l, "n") || eq_word(
        l,
        "off",
    ) || eq_word(l, "disable") || eq_word(l, "disabled") || eq_word(l, "none")
}

fn default_allowed_proxy_domains() -> (r: Vec<String>)
    ensures
        strings_view(r@) == spec_default_domains(),
{
    let mut v: Vec<String> = Vec::new();
    v.push(own("ai.kefan.cn"));
    v.push(own("uguu.se"));
    v.push(own(".uguu.se"));
    v.push(own(".aitohumanize.com"));
    proof {
        assert(strings_view(v@) =~= spec_default_domains());
    }
    v
}

/// The blob budgets for an instance with `memory_bytes` of memory.
pub fn blob_budget_defaults_for_memory(memory_bytes: u64) -> (r: BlobBudgetDefaults)
    ensures
        r == spec_budget(memory_bytes),
{
    if memory_bytes >= 8 * GIB {
        BlobBudgetDefaults {
            inline_max_bytes: 16777216,
            request_hot_budget_bytes: 67108864,
            global_hot_budget_bytes: 1610612736,
        }
    } else if memory_bytes >= 4 * GIB {
        BlobBudgetDefaults {
            inline_max_bytes: 12582912,
            request_hot_budget_bytes: 41943040,
            global_hot_budget_bytes: 805306368,
        }
    } else {
        BlobBudgetDefaults {
            inline_max_bytes: DEFAULT_BLOB_INLINE_MAX_BYTES,
            request_hot_budget_bytes: DEFAULT_BLOB_REQUEST_HOT_BUDGET_BYTES,
            global_hot_budget_bytes: DEFAULT_BLOB_GLOBAL_HOT_BUDGET_BYTES,
        }
    }
}

/// The value of `key` in the environment map.
fn lookup(env_map: &HashMap<String, String>, key: &str) -> (r: Option<String>)
    ensures
        opt_string_view(r) == env_value(env_map.deep_view(), key@),
{
    env_get(env_map, key)
}

/// `value.map(|v| v.trim()).filter(|v| !v.is_empty()).unwrap_or(default)`.
fn nonempty_trimmed_or_default(value: &Option<String>, default_value: &str) -> (r: String)
    ensures
        r@ == nonempty_trimmed_or(opt_string_view(*value), default_value@),
{
    match value {
        Some(raw) => {
            let t = trim_str(raw.as_str());
            if t.as_str().is_empty() {
                own(default_value)
            } else {
                t
            }
        },
        None => own(default_value),
    }
}

fn trimmed_or_empty_exec(value: &Option<String>) -> (r: String)
    ensures
        r@ == trimmed_or_empty(opt_string_view(*value)),
{
    match value {
        Some(raw) => trim_str(raw.as_str()),
        None => String::new(),
    }
}

fn optional_string_or_empty_exec(value: &Option<String>) -> (r: String)
    ensures
        r@ == optional_string_or_empty(opt_string_view(*value)),
{
    match value {
        Some(raw) => parse_optional_string_with_disabled(raw.as_str()),
        None => String::new(),
    }
}

fn object_prefix_exec(value: &Option<String>) -> (r: String)
    ensures
        r@ == spec_object_prefix(opt_string_view(*value)),
{
    match value {
        Some(raw) => {
            let v = chars_of(raw.as_str());
            let t = trim_vec(&v);
            let a = trim_start_char_vec(&t, '/');
            let b = trim_end_char_vec(&a, '/');
            if b.len() > 0 {
                string_of(&b)
            } else {
                own("images")
            }
        },
        None => own("images"),
    }
}

fn spill_dir_exec(value: &Option<String>) -> (r: String)
    ensures
        r@ == spec_spill_dir(opt_string_view(*value)),
{
    match value {
        Some(raw) => {
            let d = parse_optional_string_with_disabled(raw.as_str());
            if d.as_str().is_empty() {
                own(DEFAULT_BLOB_SPILL_DIR)
            } else {
                d
            }
        },
        None => own(DEFAULT_BLOB_SPILL_DIR),
    }
}

fn domains_exec(value: &Option<String>) -> (r: Vec<String>)
    ensures
        strings_view(r@) == spec_domains(opt_string_view(*value)),
{
    match value {
        Some(raw) => {
            let d = parse_csv(raw.as_str());
            if d.len() > 0 {
                d
            } else {
                default_allowed_proxy_domains()
            }
        },
        None => default_allowed_proxy_domains(),
    }
}

fn csv_or_empty_exec(value: &Option<String>) -> (r: Vec<String>)
    ensures
        strings_view(r@) == (match opt_string_view(*value) {
            Some(raw) => spec_csv(raw),
            None => Seq::<Seq<char>>::empty(),
        }),
{
    match value {
        Some(raw) => parse_csv(raw.as_str()),
        None => {
            let v: Vec<String> = Vec::new();
            proof {
                assert(strings_view(v@) =~= Seq::<Seq<char>>::empty());
            }
            v
        },
    }
}

impl Config {
    /// Reads the configuration from an environment map: each setting from
    /// its variable, or its default where the variable is missing or does
    /// not parse; then checks the image host settings.
    #[verifier::rlimit(60)]
    pub fn from_env_map(env_map: &HashMap<String, String>) -> (r: Result<Config, ConfigError>)
        ensures
            r is Ok <==> config_error_of(env_map.deep_view()) is None,
            match r {
                Ok(c) => config_matches(c, env_map.deep_view()),
                Err(e) => config_error_of(env_map.deep_view()) == Some(e.message@),
            },
    {
        let ghost m = env_map.deep_view();
        let memory = lookup(env_map, "INSTANCE_MEMORY_BYTES");
        let budget = blob_budget_defaults_for_memory(
            parse_non_negative_u64_with_default(&memory, DEFAULT_INSTANCE_MEMORY_BYTES),
        );
        let port_raw = lookup(env_map, "PORT");
        let port = match &port_raw {
            Some(raw) => match parse_port(raw.as_str()) {
                Some(p) => p,
                None => DEFAULT_PORT,
            },
            None => DEFAULT_PORT,
        };
        let upstream_base_url = nonempty_trimmed_or_default(
            &lookup(env_map, "UPSTREAM_BASE_URL"),
            DEFAULT_UPSTREAM_BASE_URL,
        );
        let key = lookup(env_map, "UPSTREAM_API_KEY");
        let upstream_api_key = match key {
            Some(k) => k,
            None => String::new(),
        };
        let mode_raw = nonempty_trimmed_or_default(&lookup(env_map, "IMAGE_HOST_MODE"), "legacy");
        let image_host_mode = lower_str(mode_raw.as_str());

        let v = lookup(env_map, "UPSTREAM_TIMEOUT_MS");
        let upstream_timeout = millis(
            parse_positive_u64_with_default(&v, DEFAULT_UPSTREAM_TIMEOUT_MS),
        );
        let v = lookup(env_map, "UPSTREAM_CONNECT_TIMEOUT_MS");
        let upstream_connect_timeout = millis(
            parse_positive_u64_with_default(&v, DEFAULT_UPSTREAM_CONNECT_TIMEOUT_MS),
        );
        let v = lookup(env_map, "UPSTREAM_TCP_KEEPALIVE_MS");
        let upstream_tcp_keepalive = millis(
            parse_positive_u64_with_default(&v, DEFAULT_UPSTREAM_TCP_KEEPALIVE_MS),
        );
        let v = lookup(env_map, "UPSTREAM_POOL_IDLE_TIMEOUT_MS");
        let upstream_pool_idle_timeout = millis(
            parse_positive_u64_with_default(&v, DEFAULT_UPSTREAM_POOL_IDLE_TIMEOUT_MS),
        );
        let allowed_proxy_domains = domains_exec(&lookup(env_map, "ALLOWED_PROXY_DOMAINS"));
        let v = lookup(env_map, "IMAGE_FETCH_TIMEOUT_MS");
        let image_fetch_ms = parse_positive_u64_with_default(
            &v,
            DEFAULT_IMAGE_FETCH_TIMEOUT_MS,
        );
        let public_raw = lookup(env_map, "PUBLIC_BASE_URL");
        let public_base_url = match &public_raw {
            Some(raw) => normalize_optional_http_base_url(raw.as_str()),
            None => String::new(),
        };
        let external_image_proxy_prefix = optional_string_or_empty_exec(
            &lookup(env_map, "EXTERNAL_IMAGE_PROXY_PREFIX"),
        );
        let v = lookup(env_map, "SLOW_LOG_THRESHOLD_MS");
        let slow_log_threshold = millis(
            parse_non_negative_u64_with_default(&v, DEFAULT_SLOW_LOG_THRESHOLD_MS),
        );
        let v = lookup(env_map, "PROXY_STANDARD_OUTPUT_URLS");
        let proxy_standard_output_urls = parse_bool(&v, true);
        let v = lookup(env_map, "PROXY_SPECIAL_UPSTREAM_URLS");
        let proxy_special_upstream_urls = parse_bool(&v, true);
        let v = lookup(env_map, "ENABLE_IMAGE_COMPRESSION");
        let enable_image_compression = parse_bool(&v, false);
        let v = lookup(env_map, "ENABLE_REQUEST_IMAGE_WEBP_OPTIMIZATION");
        let enable_request_image_webp_optimization = parse_bool(&v, false);
        let v = lookup(env_map, "IMAGE_COMPRESSION_JPEG_QUALITY");
        let image_compression_jpeg_quality = parse_jpeg_quality(
            &v,
            DEFAULT_IMAGE_COMPRESSION_JPEG_QUALITY,
        );
        let admin_password = optional_string_or_empty_exec(&lookup(env_map, "ADMIN_PASSWORD"));
        let image_fetch_timeout = millis(image_fetch_ms);
        let v = lookup(env_map, "IMAGE_TLS_HANDSHAKE_TIMEOUT_MS");
        let image_tls_handshake_timeout = millis(
            parse_positive_u64_with_default(&v, DEFAULT_IMAGE_TLS_HANDSHAKE_TIMEOUT_MS),
        );
        let v = lookup(env_map, "IMAGE_FETCH_INSECURE_SKIP_VERIFY");
        let image_fetch_insecure_skip_verify = parse_bool(&v, false);
        let image_fetch_external_proxy_domains = csv_or_empty_exec(
            &lookup(env_map, "IMAGE_FETCH_EXTERNAL_PROXY_DOMAINS"),
        );
        let inline_data_url_cache_dir = optional_string_or_empty_exec(
            &lookup(env_map, "INLINE_DATA_URL_CACHE_DIR"),
        );
        let v = lookup(env_map, "INLINE_DATA_URL_CACHE_TTL_MS");
        let inline_data_url_cache_ttl = millis(
            parse_non_negative_u64_with_default(&v, DEFAULT_INLINE_DATA_URL_CACHE_TTL_MS),
        );
        let v = lookup(env_map, "INLINE_DATA_URL_CACHE_MAX_BYTES");
        let inline_data_url_cache_max_bytes = parse_non_negative_u64_with_default(
            &v,
            DEFAULT_INLINE_DATA_URL_CACHE_MAX_BYTES,
        );
        let v = lookup(env_map, "INLINE_DATA_URL_MEMORY_CACHE_MAX_BYTES");
        let inline_data_url_memory_cache_max_bytes = parse_cache_bytes(
            &v,
            DEFAULT_INLINE_DATA_URL_MEMORY_CACHE_MAX_BYTES,
        );
        let v = lookup(env_map, "INLINE_DATA_URL_BACKGROUND_FETCH_WAIT_TIMEOUT_MS");
        let inline_data_url_background_fetch_wait_timeout = millis(
            parse_wait_timeout_ms(&v, image_fetch_ms),
        );
        let v = lookup(env_map, "INLINE_DATA_URL_BACKGROUND_FETCH_TOTAL_TIMEOUT_MS");
        let inline_data_url_background_fetch_total_timeout = millis(
            parse_non_negative_u64_with_default(
                &v,
                DEFAULT_INLINE_DATA_URL_BACKGROUND_FETCH_TOTAL_TIMEOUT_MS,
            ),
        );
        let v = lookup(env_map, "INLINE_DATA_URL_BACKGROUND_FETCH_MAX_INFLIGHT");
        let inline_data_url_background_fetch_max_inflight = parse_non_negative_usize_with_default(
            &v,
            DEFAULT_INLINE_DATA_URL_BACKGROUND_FETCH_MAX_INFLIGHT,
        );
        let v = lookup(env_map, "BLOB_INLINE_MAX_BYTES");
        let blob_inline_max_bytes = parse_non_negative_u64_with_default(
            &v,
            budget.inline_max_bytes,
        );
        let v = lookup(env_map, "BLOB_REQUEST_HOT_BUDGET_BYTES");
        let blob_request_hot_budget_bytes = parse_non_negative_u64_with_default(
            &v,
            budget.request_hot_budget_bytes,
        );
        let v = lookup(env_map, "BLOB_GLOBAL_HOT_BUDGET_BYTES");
        let blob_global_hot_budget_bytes = parse_non_negative_u64_with_default(
            &v,
            budget.global_hot_budget_bytes,
        );
        let blob_spill_dir = spill_dir_exec(&lookup(env_map, "BLOB_SPILL_DIR"));
        let v = lookup(env_map, "UPLOAD_TIMEOUT_MS");
        let upload_timeout = millis(
            parse_positive_u64_with_default(&v, DEFAULT_UPLOAD_TIMEOUT_MS),
        );
        let v = lookup(env_map, "UPLOAD_TLS_HANDSHAKE_TIMEOUT_MS");
        let upload_tls_handshake_timeout = millis(
            parse_positive_u64_with_default(&v, DEFAULT_UPLOAD_TLS_HANDSHAKE_TIMEOUT_MS),
        );
        let v = lookup(env_map, "UPLOAD_INSECURE_SKIP_VERIFY");
        let upload_insecure_skip_verify = parse_bool(&v, false);
        let r2_endpoint = trimmed_or_empty_exec(&lookup(env_map, "R2_ENDPOINT"));
        let r2_bucket = trimmed_or_empty_exec(&lookup(env_map, "R2_BUCKET"));
        let r2_access_key_id = trimmed_or_empty_exec(&lookup(env_map, "R2_ACCESS_KEY_ID"));
        let r2_secret_access_key = trimmed_or_empty_exec(&lookup(env_map, "R2_SECRET_ACCESS_KEY"));
        let r2_public_base_url = trimmed_or_empty_exec(&lookup(env_map, "R2_PUBLIC_BASE_URL"));
        let r2_object_prefix = object_prefix_exec(&lookup(env_map, "R2_OBJECT_PREFIX"));

        let config = Config {
            port,
            upstream_base_url,
            upstream_api_key,
            upstream_timeout,
            upstream_connect_timeout,
            upstream_tcp_keepalive,
            upstream_pool_idle_timeout,
            image_host_mode,
            allowed_proxy_domains,
            public_base_url,
            external_image_proxy_prefix,
            slow_log_threshold,
            proxy_standard_output_urls,
            proxy_special_upstream_urls,
            enable_image_compression,
            enable_request_image_webp_optimization,
            image_compression_jpeg_quality,
            admin_password,
            image_fetch_timeout,
            image_tls_handshake_timeout,
            image_fetch_insecure_skip_verify,
            image_fetch_external_proxy_domains,
            inline_data_url_cache_dir,
            inline_data_url_cache_ttl,
            inline_data_url_cache_max_bytes,
            inline_data_url_memory_cache_max_bytes,
            inline_data_url_background_fetch_wait_timeout,
            inline_data_url_background_fetch_total_timeout,
            inline_data_url_background_fetch_max_inflight,
            blob_inline_max_bytes,
            blob_request_hot_budget_bytes,
            blob_global_hot_budget_bytes,
            blob_spill_dir,
            upload_timeout,
            upload_tls_handshake_timeout,
            upload_insecure_skip_verify,
            legacy_uguu_upload_url: own(DEFAULT_LEGACY_UGUU_UPLOAD_URL),
            legacy_kefan_upload_url: own(DEFAULT_LEGACY_KEFAN_UPLOAD_URL),
            r2_endpoint,
            r2_bucket,
            r2_access_key_id,
            r2_secret_access_key,
            r2_public_base_url,
            r2_object_prefix,
        };
        proof {
            assert(config_matches(config, m));
        }
        match validate(&config) {
            Ok(()) => Ok(config),
            Err(e) => Err(e),
        }
    }

    /// The prefix that turns an image URL into a proxied one: the external
    /// prefix when set, else `PUBLIC_BASE_URL` followed by
    /// `/proxy/image?url=`, else empty.
    pub fn resolved_external_image_proxy_prefix(&self) -> (r: String)
        ensures
            r@ == spec_resolved_prefix(self.external_image_proxy_prefix@, self.public_base_url@),
    {
        let external_prefix = trim_str(self.external_image_proxy_prefix.as_str());
        if !external_prefix.as_str().is_empty() {
            return external_prefix;
        }
        let v = chars_of(self.public_base_url.as_str());
        let t = trim_vec(&v);
        let base = trim_end_char_vec(&t, '/');
        if base.len() == 0 {
            return String::new();
        }
        let b = string_of(&base);
        concat(b.as_str(), "/proxy/image?url=")
    }
}

/// The validation error of a configuration's image host settings.
pub open spec fn config_validation_error(c: Config) -> Option<Seq<char>> {
    spec_validation_error(
        c.image_host_mode@,
        c.r2_endpoint@,
        c.r2_bucket@,
        c.r2_access_key_id@,
        c.r2_secret_access_key@,
        c.r2_public_base_url@,
    )
}

fn required_error(name: &str) -> (r: ConfigError)
    ensures
        r.message@ == name@ + " is required when IMAGE_HOST_MODE is r2 or r2_then_legacy"@,
{
    ConfigError {
        message: concat(name, " is required when IMAGE_HOST_MODE is r2 or r2_then_legacy"),
    }
}

fn is_blank(s: &String) -> (r: bool)
    ensures
        r == (trim(s@).len() == 0),
{
    trim_str(s.as_str()).as_str().is_empty()
}

/// Checks the image host mode, and for the R2 modes that every R2 setting
/// is present and that both R2 URLs are `http`/`https` URLs with a host.
pub fn validate(config: &Config) -> (r: Result<(), ConfigError>)
    ensures
        match r {
            Ok(()) => config_validation_error(*config) is None,
            Err(e) => config_validation_error(*config) == Some(e.message@),
        },
{
    let mode = chars_of(config.image_host_mode.as_str());
    let is_r2 = eq_word(&mode, "r2") || eq_word(&mode, "r2_then_legacy");
    if !(mode.len() == 0 || eq_word(&mode, "legacy") || is_r2) {
        proof {
            assert(mode@.len() != 0);
        }
        return Err(ConfigError {
            message: concat(
                "IMAGE_HOST_MODE must be one of legacy, r2, r2_then_legacy, got ",
                config.image_host_mode.as_str(),
            ),
        });
    }
    if is_r2 {
        if is_blank(&config.r2_endpoint) {
            return Err(required_error("R2_ENDPOINT"));
        }
        if is_blank(&config.r2_bucket) {
            return Err(required_error("R2_BUCKET"));
        }
        if is_blank(&config.r2_access_key_id) {
            return Err(required_error("R2_ACCESS_KEY_ID"));
        }
        if is_blank(&config.r2_secret_access_key) {
            return Err(required_error("R2_SECRET_ACCESS_KEY"));
        }
        if is_blank(&config.r2_public_base_url) {
            return Err(required_error("R2_PUBLIC_BASE_URL"));
        }
        match parse_http_base_url(config.r2_endpoint.as_str(), "R2_ENDPOINT") {
            Err(e) => {
                return Err(ConfigError { message: concat("R2_ENDPOINT is invalid: ", e.as_str()) });
            },
            Ok(_) => {},
        }
        match parse_http_base_url(config.r2_public_base_url.as_str(), "R2_PUBLIC_BASE_URL") {
            Err(e) => {
                return Err(ConfigError { message: e });
            },
            Ok(_) => {},
        }
    }
    Ok(())
}

} // verus!
