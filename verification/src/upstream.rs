//! Which upstream a request goes to, and with which key.
//!
//! The caller may override the configured upstream through the
//! `x-goog-api-key` header or a `Bearer` authorization: a bare key, a
//! `<baseUrl>|<apiKey>` pair, or two comma-separated pairs of which the
//! second serves 4K image requests.
use vstd::prelude::*;

use crate::config::{is_http_scheme, parse_csv, spec_csv, strings_view};
use crate::json::{as_str, get_path, Json, JsonValue};
use crate::text::{
    chars_of, concat, find, find_char, find_char_vec, find_vec, lower, lower_vec, occurs_at,
    own, slice_range, split_once, split_once_vec, starts_with, starts_with_vec, string_of, trim,
    trim_str, trim_vec, vec_is, lemma_find_at, lemma_find_some,
};
use crate::urls::{opt_string_view, parse_url, url_host, url_parse_outcome};

verus! {

#[derive(Clone, Debug, PartialEq, Eq)]
pub struct ResolvedUpstream {
    pub base_url: String,
    pub api_key: String,
}

#[derive(Clone, Copy, Debug, PartialEq, Eq)]
pub enum ResolveUpstreamErrorKind {
    MissingApiKey,
    InvalidOverride,
}

#[derive(Clone, Debug, PartialEq, Eq)]
pub struct ResolveUpstreamError {
    pub kind: ResolveUpstreamErrorKind,
    pub message: String,
}

pub open spec fn MISSING_API_KEY_MESSAGE() -> Seq<char> {
    "Missing upstream apiKey"@
}

impl ResolveUpstreamError {
    fn missing_api_key() -> (r: Self)
        ensures
            r.kind == ResolveUpstreamErrorKind::MissingApiKey,
            r.message@ == MISSING_API_KEY_MESSAGE(),
    {
        ResolveUpstreamError {
            kind: ResolveUpstreamErrorKind::MissingApiKey,
            message: own("Missing upstream apiKey"),
        }
    }

    fn invalid_override(message: String) -> (r: Self)
        ensures
            r.kind == ResolveUpstreamErrorKind::InvalidOverride,
            r.message@ == message@,
    {
        ResolveUpstreamError { kind: ResolveUpstreamErrorKind::InvalidOverride, message }
    }

    /// The HTTP status the proxy answers with: 401 for a missing key, 400
    /// for a malformed override.
    pub fn status_code(&self) -> (r: u16)
        ensures
            r == (match self.kind {
                ResolveUpstreamErrorKind::MissingApiKey => 401u16,
                ResolveUpstreamErrorKind::InvalidOverride => 400u16,
            }),
    {
        match self.kind {
            ResolveUpstreamErrorKind::MissingApiKey => 401,
            ResolveUpstreamErrorKind::InvalidOverride => 400,
        }
    }

    /// The error's text.
    pub fn to_string(&self) -> (r: String)
        ensures
            r@ == self.message@,
    {
        self.message.clone()
    }
}

// ---------------------------------------------------------------------
// Specifications
// ---------------------------------------------------------------------
pub open spec fn headers_view(h: Seq<(&str, &str)>) -> Seq<(Seq<char>, Seq<char>)> {
    h.map_values(|p: (&str, &str)| (p.0@, p.1@))
}

/// The trimmed value of the last header named `name` (case-insensitively)
/// whose trimmed value is not empty.
pub open spec fn last_header(hs: Seq<(Seq<char>, Seq<char>)>, name: Seq<char>) -> Option<
    Seq<char>,
>
    decreases hs.len(),
{
    if hs.len() == 0 {
        None
    } else if lower(hs.last().0) == name && trim(hs.last().1).len() > 0 {
        Some(trim(hs.last().1))
    } else {
        last_header(hs.drop_last(), name)
    }
}

/// The override token: `x-goog-api-key`, else what follows `Bearer ` in
/// the authorization header.
pub open spec fn spec_token(hs: Seq<(Seq<char>, Seq<char>)>) -> Option<Seq<char>> {
    match last_header(hs, "x-goog-api-key"@) {
        Some(t) => Some(t),
        None => match last_header(hs, "authorization"@) {
            Some(a) => if starts_with(a, "Bearer "@) {
                Some(a.subrange("Bearer "@.len() as int, a.len() as int))
            } else {
                None
            },
            None => None,
        },
    }
}

/// `None` when `raw` is an `http`/`https` URL with a host, else the error.
pub open spec fn spec_base_url_error(raw: Seq<char>) -> Option<Seq<char>> {
    match url_parse_outcome(raw) {
        Err(e) => Some(e),
        Ok(p) => if !is_http_scheme(p.0) {
            Some("custom baseUrl must use http or https"@)
        } else if (match p.1 {
            Some(h) => h.len() == 0,
            None => true,
        }) {
            Some("custom baseUrl host is empty"@)
        } else {
            None
        },
    }
}

pub open spec fn nonempty(s: Seq<char>) -> Option<Seq<char>> {
    if s.len() > 0 {
        Some(s)
    } else {
        None
    }
}

/// An override: the base URL and the key it sets, each optional.
pub type OverrideModel = (Option<Seq<char>>, Option<Seq<char>>);

/// A single token: `<baseUrl>|<apiKey>` (either side may be empty) or a
/// bare key.
pub open spec fn spec_single(token: Seq<char>) -> Result<OverrideModel, Seq<char>> {
    match split_once(token, '|') {
        Some((b, k)) => {
            let b = trim(b);
            let k = trim(k);
            if b.len() > 0 {
                match spec_base_url_error(b) {
                    Some(e) => Err(e),
                    None => Ok((Some(b), nonempty(k))),
                }
            } else {
                Ok((None, nonempty(k)))
            }
        },
        None => Ok((None, Some(trim(token)))),
    }
}

pub open spec fn PAIR_FORMAT_MESSAGE() -> Seq<char> {
    "invalid dual upstream token: each group must be <baseUrl>|<apiKey>"@
}

pub open spec fn PAIR_EMPTY_MESSAGE() -> Seq<char> {
    "invalid dual upstream token: baseUrl and apiKey must both be non-empty"@
}

pub open spec fn GROUP_COUNT_MESSAGE() -> Seq<char> {
    "invalid dual upstream token: expected exactly two <baseUrl>|<apiKey> groups"@
}

/// One group of a dual token: both sides required.
pub open spec fn spec_strict_pair(token: Seq<char>) -> Result<OverrideModel, Seq<char>> {
    match split_once(token, '|') {
        None => Err(PAIR_FORMAT_MESSAGE()),
        Some((b, k)) => {
            let b = trim(b);
            let k = trim(k);
            if b.len() == 0 || k.len() == 0 {
                Err(PAIR_EMPTY_MESSAGE())
            } else {
                match spec_base_url_error(b) {
                    Some(e) => Err(e),
                    None => Ok((Some(b), Some(k))),
                }
            }
        },
    }
}

pub open spec fn image_size_path() -> Seq<Seq<char>> {
    seq!["generationConfig"@, "imageConfig"@, "imageSize"@]
}

pub open spec fn image_size_snake_path() -> Seq<Seq<char>> {
    seq!["generation_config"@, "image_config"@, "image_size"@]
}

/// The request asks for a 4K image (camelCase path first, then
/// snake_case).
pub open spec fn spec_targets_4k(body: Json) -> bool {
    let found = match get_path(body, image_size_path()) {
        Some(v) => Some(v),
        None => get_path(body, image_size_snake_path()),
    };
    match as_str(found) {
        Some(s) => lower(trim(s)) == "4k"@,
        None => false,
    }
}

/// Two groups separated by a comma; the second serves 4K requests.
pub open spec fn spec_dual(token: Seq<char>, body: Json) -> Result<OverrideModel, Seq<char>> {
    let parts = spec_csv(token);
    if parts.len() != 2 {
        Err(GROUP_COUNT_MESSAGE())
    } else {
        match spec_strict_pair(parts[0]) {
            Err(e) => Err(e),
            Ok(first) => match spec_strict_pair(parts[1]) {
                Err(e) => Err(e),
                Ok(second) => if spec_targets_4k(body) {
                    Ok(second)
                } else {
                    Ok(first)
                },
            },
        }
    }
}

/// A request asks for 4K when its `generationConfig.imageConfig.imageSize`
/// says `4K`, in any letter case and with blanks around it; a well-formed
/// dual token then resolves to its second group, and otherwise to its
/// first.
pub proof fn law_4k_requests_use_the_second_group(body: Json, size: Seq<char>, token: Seq<char>)
    requires
        get_path(body, image_size_path()) == Some(Json::Str(size)),
    ensures
        lower(trim(size)) == "4k"@ ==> spec_targets_4k(body),
        lower(trim(size)) != "4k"@ ==> !spec_targets_4k(body),
        ({
            let parts = spec_csv(token);
            parts.len() == 2 && spec_strict_pair(parts[0]) is Ok && spec_strict_pair(parts[1]) is Ok
        }) ==> spec_dual(token, body) == if lower(trim(size)) == "4k"@ {
            spec_strict_pair(spec_csv(token)[1])
        } else {
            spec_strict_pair(spec_csv(token)[0])
        },
{
}

pub open spec fn spec_override(token: Seq<char>, body: Json) -> Result<OverrideModel, Seq<char>> {
    if find_char(token, ',') is Some {
        spec_dual(token, body)
    } else {
        spec_single(token)
    }
}

/// Header names are matched in any letter case and the last non-blank
/// value wins: a request whose last header is a non-blank
/// `x-goog-api-key` (in any case) carries that key, trimmed; without one,
/// a last non-blank authorization `Bearer <token>` carries the token.
pub proof fn law_override_token_from_headers(
    hs: Seq<(Seq<char>, Seq<char>)>,
    name: Seq<char>,
    value: Seq<char>,
)
    ensures
        lower(name) == "x-goog-api-key"@ && trim(value).len() > 0 ==> spec_token(hs.push((name, value)))
            == Some(trim(value)),
        lower(name) == "authorization"@ && trim(value).len() > 0 && starts_with(trim(value), "Bearer "@)
            && last_header(hs, "x-goog-api-key"@) is None ==> spec_token(hs.push((name, value)))
            == Some(trim(value).subrange(7, trim(value).len() as int)),
{
    reveal_strlit("x-goog-api-key");
    reveal_strlit("authorization");
    reveal_strlit("Bearer ");
    let h2 = hs.push((name, value));
    assert(h2.drop_last() =~= hs);
    assert(h2.last() == (name, value));
    if lower(name) == "authorization"@ && trim(value).len() > 0 {
        assert("authorization"@.len() != "x-goog-api-key"@.len());
        assert(last_header(h2, "x-goog-api-key"@) == last_header(hs, "x-goog-api-key"@));
        assert(last_header(h2, "authorization"@) == Some(trim(value)));
    }
}

/// The upstream a request resolves to, or the error kind and message.
pub open spec fn spec_resolve(
    hs: Seq<(Seq<char>, Seq<char>)>,
    body: Json,
    default_base: Seq<char>,
    default_key: Seq<char>,
) -> Result<(Seq<char>, Seq<char>), (ResolveUpstreamErrorKind, Seq<char>)> {
    let applied: Result<(Seq<char>, Seq<char>), Seq<char>> = match spec_token(hs) {
        None => Ok((trim(default_base), trim(default_key))),
        Some(t) => match spec_override(t, body) {
            Err(e) => Err(e),
            Ok(o) => Ok(
                (
                    match o.0 {
                        Some(b) => b,
                        None => trim(default_base),
                    },
                    match o.1 {
                        Some(k) => k,
                        None => trim(default_key),
                    },
                ),
            ),
        },
    };
    match applied {
        Err(e) => Err((ResolveUpstreamErrorKind::InvalidOverride, e)),
        Ok(r) => if r.1.len() == 0 {
            Err((ResolveUpstreamErrorKind::MissingApiKey, MISSING_API_KEY_MESSAGE()))
        } else {
            Ok(r)
        },
    }
}

pub open spec fn resolve_result_matches(
    r: Result<ResolvedUpstream, ResolveUpstreamError>,
    s: Result<(Seq<char>, Seq<char>), (ResolveUpstreamErrorKind, Seq<char>)>,
) -> bool {
    match r {
        Ok(u) => s == Ok::<(Seq<char>, Seq<char>), (ResolveUpstreamErrorKind, Seq<char>)>(
            (u.base_url@, u.api_key@),
        ),
        Err(e) => s == Err::<(Seq<char>, Seq<char>), (ResolveUpstreamErrorKind, Seq<char>)>(
            (e.kind, e.message@),
        ),
    }
}

// ---------------------------------------------------------------------
// Exec
// ---------------------------------------------------------------------
struct UpstreamOverride {
    base_url: Option<String>,
    api_key: Option<String>,
}

spec fn override_view(o: UpstreamOverride) -> OverrideModel {
    (opt_string_view(o.base_url), opt_string_view(o.api_key))
}

spec fn override_result_matches(
    r: Result<UpstreamOverride, ResolveUpstreamError>,
    s: Result<OverrideModel, Seq<char>>,
) -> bool {
    match r {
        Ok(o) => s == Ok::<OverrideModel, Seq<char>>(override_view(o)),
        Err(e) => e.kind == ResolveUpstreamErrorKind::InvalidOverride && s == Err::<
            OverrideModel,
            Seq<char>,
        >(e.message@),
    }
}

fn nonempty_string(v: Vec<char>) -> (r: Option<String>)
    ensures
        opt_string_view(r) == nonempty(v@),
{
    if v.len() > 0 {
        Some(string_of(&v))
    } else {
        None
    }
}

fn validate_http_base_url(raw: &str) -> (r: Result<(), ResolveUpstreamError>)
    ensures
        match r {
            Ok(()) => spec_base_url_error(raw@) is None,
            Err(e) => e.kind == ResolveUpstreamErrorKind::InvalidOverride && spec_base_url_error(
                raw@,
            ) == Some(e.message@),
        },
{
    match parse_url(raw) {
        Err(e) => Err(ResolveUpstreamError::invalid_override(e)),
        Ok(parsed) => {
            let scheme = chars_of(parsed.scheme.as_str());
            if !(vec_is(&scheme, "http") || vec_is(&scheme, "https")) {
                return Err(
                    ResolveUpstreamError::invalid_override(
                        own("custom baseUrl must use http or https"),
                    ),
                );
            }
            let host_empty = match &parsed.host {
                Some(h) => h.as_str().is_empty(),
                None => true,
            };
            if host_empty {
                return Err(
                    ResolveUpstreamError::invalid_override(own("custom baseUrl host is empty")),
                );
            }
            Ok(())
        },
    }
}

fn parse_single_upstream_token(token: &Vec<char>) -> (r: Result<
    UpstreamOverride,
    ResolveUpstreamError,
>)
    ensures
        override_result_matches(r, spec_single(token@)),
{
    match split_once_vec(token, '|') {
        Some((b, k)) => {
            let b = trim_vec(&b);
            let k = trim_vec(&k);
            if b.len() > 0 {
                let bs = string_of(&b);
                match validate_http_base_url(bs.as_str()) {
                    Err(e) => Err(e),
                    Ok(()) => Ok(UpstreamOverride { base_url: Some(bs), api_key: nonempty_string(k) }),
                }
            } else {
                Ok(UpstreamOverride { base_url: None, api_key: nonempty_string(k) })
            }
        },
        None => {
            let t = trim_vec(token);
            Ok(UpstreamOverride { base_url: None, api_key: Some(string_of(&t)) })
        },
    }
}

fn parse_strict_upstream_pair(token: &str) -> (r: Result<UpstreamOverride, ResolveUpstreamError>)
    ensures
        override_result_matches(r, spec_strict_pair(token@)),
{
    let tv = chars_of(token);
    match split_once_vec(&tv, '|') {
        None => Err(
            ResolveUpstreamError::invalid_override(
                own("invalid dual upstream token: each group must be <baseUrl>|<apiKey>"),
            ),
        ),
        Some((b, k)) => {
            let b = trim_vec(&b);
            let k = trim_vec(&k);
            if b.len() == 0 || k.len() == 0 {
                return Err(
                    ResolveUpstreamError::invalid_override(
                        own(
                            "invalid dual upstream token: baseUrl and apiKey must both be non-empty",
                        ),
                    ),
                );
            }
            let bs = string_of(&b);
            match validate_http_base_url(bs.as_str()) {
                Err(e) => Err(e),
                Ok(()) => Ok(
                    UpstreamOverride { base_url: Some(bs), api_key: Some(string_of(&k)) },
                ),
            }
        },
    }
}

fn request_targets_4k(request_body: &JsonValue) -> (r: bool)
    ensures
        r == spec_targets_4k(request_body@),
{
    let camel: [&str; 3] = ["generationConfig", "imageConfig", "imageSize"];
    let snake: [&str; 3] = ["generation_config", "image_config", "image_size"];
    proof {
        assert(crate::json::keys_view(camel@) =~= image_size_path());
        assert(crate::json::keys_view(snake@) =~= image_size_snake_path());
    }
    let found = match request_body.get_path(&camel) {
        Some(v) => Some(v),
        None => request_body.get_path(&snake),
    };
    match found {
        Some(v) => match v.as_str() {
            Some(s) => {
                let c = chars_of(s.as_str());
                let t = trim_vec(&c);
                let l = lower_vec(&t);
                vec_is(&l, "4k")
            },
            None => false,
        },
        None => false,
    }
}

fn parse_dual_upstream_token(token: &Vec<char>, request_body: &JsonValue) -> (r: Result<
    UpstreamOverride,
    ResolveUpstreamError,
>)
    ensures
        override_result_matches(r, spec_dual(token@, request_body@)),
{
    let ts = string_of(token);
    let parts = parse_csv(ts.as_str());
    if parts.len() != 2 {
        return Err(
            ResolveUpstreamError::invalid_override(
                own(
                    "invalid dual upstream token: expected exactly two <baseUrl>|<apiKey> groups",
                ),
            ),
        );
    }
    proof {
        assert(strings_view(parts@)[0] == parts@[0]@);
        assert(strings_view(parts@)[1] == parts@[1]@);
    }
    let first = match parse_strict_upstream_pair(parts[0].as_str()) {
        Err(e) => {
            return Err(e);
        },
        Ok(o) => o,
    };
    let second = match parse_strict_upstream_pair(parts[1].as_str()) {
        Err(e) => {
            return Err(e);
        },
        Ok(o) => o,
    };
    if request_targets_4k(request_body) {
        Ok(second)
    } else {
        Ok(first)
    }
}

/// The token carried by the headers, as `spec_token` describes.
fn header_token(headers: &[(&str, &str)]) -> (r: Option<Vec<char>>)
    ensures
        match r {
            Some(t) => spec_token(headers_view(headers@)) == Some(t@),
            None => spec_token(headers_view(headers@)) is None,
        },
{
    let ghost hv = headers_view(headers@);
    let mut x_goog_api_key: Option<Vec<char>> = None;
    let mut authorization: Option<Vec<char>> = None;
    let mut i: usize = 0;
    while i < headers.len()
        invariant
            0 <= i <= headers.len(),
            hv == headers_view(headers@),
            hv.len() == headers@.len(),
            match x_goog_api_key {
                Some(t) => last_header(hv.take(i as int), "x-goog-api-key"@) == Some(t@),
                None => last_header(hv.take(i as int), "x-goog-api-key"@) is None,
            },
            match authorization {
                Some(t) => last_header(hv.take(i as int), "authorization"@) == Some(t@),
                None => last_header(hv.take(i as int), "authorization"@) is None,
            },
        decreases headers.len() - i,
    {
        let (key, value) = headers[i];
        proof {
            assert(hv.take(i + 1).drop_last() =~= hv.take(i as int));
            assert(hv.take(i + 1).last() == (key@, value@));
        }
        let kv = chars_of(key);
        let kl = lower_vec(&kv);
        let vv = chars_of(value);
        let value_trimmed = trim_vec(&vv);
        if vec_is(&kl, "x-goog-api-key") && value_trimmed.len() > 0 {
            proof {
                assert(kl@ != "authorization"@) by {
                    reveal_strlit("authorization");
                    reveal_strlit("x-goog-api-key");
                    assert("x-goog-api-key"@.len() != "authorization"@.len());
                }
            }
            x_goog_api_key = Some(value_trimmed);
        } else if vec_is(&kl, "authorization") && value_trimmed.len() > 0 {
            authorization = Some(value_trimmed);
        }
        i += 1;
    }
    proof {
        assert(hv.take(headers.len() as int) =~= hv);
    }
    match x_goog_api_key {
        Some(t) => Some(t),
        None => match authorization {
            Some(a) => {
                let prefix = chars_of("Bearer ");
                if starts_with_vec(&a, &prefix) {
                    Some(slice_range(&a, prefix.len(), a.len()))
                } else {
                    None
                }
            },
            None => None,
        },
    }
}

/// The upstream for a request without a body.
pub fn resolve_upstream(
    headers: &[(&str, &str)],
    default_base_url: &str,
    default_api_key: &str,
) -> (r: Result<ResolvedUpstream, ResolveUpstreamError>)
    ensures
        resolve_result_matches(
            r,
            spec_resolve(headers_view(headers@), Json::Null, default_base_url@, default_api_key@),
        ),
{
    resolve_upstream_for_request(headers, &JsonValue::Null, default_base_url, default_api_key)
}

/// The upstream base URL and key for a request: the configured defaults,
/// overridden by the token that the headers carry.
pub fn resolve_upstream_for_request(
    headers: &[(&str, &str)],
    request_body: &JsonValue,
    default_base_url: &str,
    default_api_key: &str,
) -> (r: Result<ResolvedUpstream, ResolveUpstreamError>)
    ensures
        resolve_result_matches(
            r,
            spec_resolve(
                headers_view(headers@),
                request_body@,
                default_base_url@,
                default_api_key@,
            ),
        ),
        // A resolved upstream always has a key.
        r matches Ok(u) ==> u.api_key@.len() > 0,
        // With no key in the headers and none configured, the request is
        // refused as unauthorized.
        spec_token(headers_view(headers@)) is None && trim(default_api_key@).len() == 0 ==> (r matches Err(
            e,
        ) && e.kind == ResolveUpstreamErrorKind::MissingApiKey && e.message@
            == MISSING_API_KEY_MESSAGE()),
{
    let token = header_token(headers);
    let mut base_url = trim_str(default_base_url);
    let mut api_key = trim_str(default_api_key);
    match token {
        Some(t) => {
            let over = match find_char_vec(&t, ',') {
                Some(_) => parse_dual_upstream_token(&t, request_body),
                None => parse_single_upstream_token(&t),
            };
            match over {
                Err(e) => {
                    return Err(e);
                },
                Ok(o) => {
                    match o.base_url {
                        Some(b) => {
                            base_url = b;
                        },
                        None => {},
                    }
                    match o.api_key {
                        Some(k) => {
                            api_key = k;
                        },
                        None => {},
                    }
                },
            }
        },
        None => {},
    }
    if api_key.as_str().is_empty() {
        return Err(ResolveUpstreamError::missing_api_key());
    }
    Ok(ResolvedUpstream { base_url, api_key })
}

pub open spec fn spec_is_aiapidev_base_url(raw: Seq<char>) -> bool {
    match url_host(raw) {
        Some(h) => h == "www.aiapidev.com"@ || h == "aiapidev.com"@,
        None => false,
    }
}

pub fn is_aiapidev_base_url(raw: &str) -> (r: bool)
    ensures
        r == spec_is_aiapidev_base_url(raw@),
{
    match crate::urls::host_of(raw) {
        Some(h) => {
            let hv = chars_of(h.as_str());
            vec_is(&hv, "www.aiapidev.com") || vec_is(&hv, "aiapidev.com")
        },
        None => false,
    }
}

pub open spec fn MODELS_PREFIX() -> Seq<char> {
    "/v1beta/models/"@
}

pub open spec fn GENERATE_SUFFIX() -> Seq<char> {
    ":generateContent"@
}

/// The aiapidev name of a Gemini image model, or the model itself.
pub open spec fn aiapidev_model_name(model: Seq<char>) -> Seq<char> {
    if model == "gemini-3-pro-image-preview"@ {
        "nanobananapro"@
    } else if model == "gemini-3.1-flash-image-preview"@ {
        "nanobanana2"@
    } else {
        model
    }
}

/// `/v1beta/models/{model}:generateContent{suffix}` with the model renamed
/// for aiapidev; any other path is returned as it is.
pub open spec fn spec_rewrite_model_path(path: Seq<char>) -> Seq<char> {
    if !starts_with(path, MODELS_PREFIX()) {
        path
    } else {
        let mp = path.subrange(MODELS_PREFIX().len() as int, path.len() as int);
        match find(mp, GENERATE_SUFFIX()) {
            None => path,
            Some(i) => {
                let model = mp.subrange(0, i);
                let suffix = mp.subrange(i + GENERATE_SUFFIX().len(), mp.len() as int);
                MODELS_PREFIX() + aiapidev_model_name(model) + GENERATE_SUFFIX() + suffix
            },
        }
    }
}

/// The model named in a `generateContent` path, if it is one.
pub open spec fn model_of_path(path: Seq<char>) -> Option<Seq<char>> {
    if !starts_with(path, MODELS_PREFIX()) {
        None
    } else {
        let mp = path.subrange(MODELS_PREFIX().len() as int, path.len() as int);
        match find(mp, GENERATE_SUFFIX()) {
            None => None,
            Some(i) => Some(mp.subrange(0, i)),
        }
    }
}

proof fn lemma_model_path_parts(path: Seq<char>, i: int)
    requires
        starts_with(path, MODELS_PREFIX()),
        occurs_at(
            path.subrange(MODELS_PREFIX().len() as int, path.len() as int),
            GENERATE_SUFFIX(),
            i,
        ),
    ensures
        ({
            let mp = path.subrange(MODELS_PREFIX().len() as int, path.len() as int);
            MODELS_PREFIX() + mp.subrange(0, i) + GENERATE_SUFFIX() + mp.subrange(
                i + GENERATE_SUFFIX().len(),
                mp.len() as int,
            ) == path
        }),
{
    let mp = path.subrange(MODELS_PREFIX().len() as int, path.len() as int);
    assert(mp =~= mp.subrange(0, i) + GENERATE_SUFFIX() + mp.subrange(
        i + GENERATE_SUFFIX().len(),
        mp.len() as int,
    ));
    assert(path =~= MODELS_PREFIX() + mp);
}

/// Renaming is done once for good: a path that was rewritten for aiapidev
/// comes back unchanged when it is rewritten again.
pub proof fn law_rewrite_model_path_idempotent(path: Seq<char>)
    ensures
        spec_rewrite_model_path(spec_rewrite_model_path(path)) == spec_rewrite_model_path(path),
{
    reveal_strlit("/v1beta/models/");
    reveal_strlit(":generateContent");
    reveal_strlit("nanobananapro");
    reveal_strlit("nanobanana2");
    reveal_strlit("gemini-3-pro-image-preview");
    reveal_strlit("gemini-3.1-flash-image-preview");
    let pre = MODELS_PREFIX();
    let gen = GENERATE_SUFFIX();
    if starts_with(path, pre) {
        let mp = path.subrange(pre.len() as int, path.len() as int);
        if let Some(i) = find(mp, gen) {
            lemma_find_some(mp, gen);
            let model = mp.subrange(0, i);
            let name = aiapidev_model_name(model);
            let suffix = mp.subrange(i + gen.len(), mp.len() as int);
            let q = pre + name + gen + suffix;
            assert(spec_rewrite_model_path(path) == q);
            if name == model {
                lemma_model_path_parts(path, i);
            } else {
                assert(name == "nanobananapro"@ || name == "nanobanana2"@);
                assert(q.subrange(0, pre.len() as int) =~= pre);
                let mq = q.subrange(pre.len() as int, q.len() as int);
                assert(mq =~= name + gen + suffix);
                assert(mq.subrange(name.len() as int, (name.len() + gen.len()) as int) =~= gen);
                assert forall|j: int| 0 <= j < name.len() implies !occurs_at(mq, gen, j) by {
                    if occurs_at(mq, gen, j) {
                        assert(mq.subrange(j, j + gen.len())[0] == gen[0]);
                        assert(mq[j] == name[j]);
                    }
                }
                lemma_find_at(mq, gen, name.len() as int);
                assert(mq.subrange(0, name.len() as int) =~= name);
                assert(mq.subrange((name.len() + gen.len()) as int, mq.len() as int) =~= suffix);
                assert(aiapidev_model_name(name) == name);
            }
        }
    }
}

/// Maps the model of a `generateContent` path to its aiapidev name.
pub fn rewrite_aiapidev_model_path(path: &str) -> (r: String)
    ensures
        r@ == spec_rewrite_model_path(path@),
        // A path whose model aiapidev does not rename comes back unchanged.
        (match model_of_path(path@) {
            Some(m) => aiapidev_model_name(m) == m,
            None => true,
        }) ==> r@ == path@,
{
    let pv = chars_of(path);
    let prefix = chars_of("/v1beta/models/");
    if !starts_with_vec(&pv, &prefix) {
        return own(path);
    }
    let mp = slice_range(&pv, prefix.len(), pv.len());
    let gen = chars_of(":generateContent");
    match find_vec(&mp, &gen) {
        None => own(path),
        Some(i) => {
            let model = slice_range(&mp, 0, i);
            let suffix = slice_range(&mp, i + gen.len(), mp.len());
            let mapped = if vec_is(&model, "gemini-3-pro-image-preview") {
                own("nanobananapro")
            } else if vec_is(&model, "gemini-3.1-flash-image-preview") {
                own("nanobanana2")
            } else {
                string_of(&model)
            };
            assert(mapped@ == aiapidev_model_name(model@));
            let a = concat("/v1beta/models/", mapped.as_str());
            let b = concat(a.as_str(), ":generateContent");
            let s = string_of(&suffix);
            let out = concat(b.as_str(), s.as_str());
            proof {
                lemma_model_path_parts(path@, i as int);
            }
            out
        },
    }
}

} // verus!
