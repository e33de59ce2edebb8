//! Which upstream protocol a base URL speaks, decided by its host.
use vstd::prelude::*;

use crate::text::{chars_of, ends_with, ends_with_vec};
use crate::urls::{host_lower_of, url_host_lower};

verus! {

#[derive(Clone, Copy, Debug, PartialEq, Eq)]
pub enum ProviderKind {
    Grsai,
    Aiapidev,
    Transparent,
}

pub open spec fn provider_kind_name(k: ProviderKind) -> Seq<char> {
    match k {
        ProviderKind::Grsai => "grsai"@,
        ProviderKind::Aiapidev => "aiapidev"@,
        ProviderKind::Transparent => "transparent"@,
    }
}

impl ProviderKind {
    /// The provider's name as it appears in logs.
    pub fn name(self) -> (r: &'static str)
        ensures
            r@ == provider_kind_name(self),
    {
        match self {
            ProviderKind::Grsai => "grsai",
            ProviderKind::Aiapidev => "aiapidev",
            ProviderKind::Transparent => "transparent",
        }
    }
}

#[derive(Clone, Copy, Debug, PartialEq, Eq)]
pub struct Provider {
    pub kind: ProviderKind,
}

impl Provider {
    pub fn kind(self) -> (r: ProviderKind)
        ensures
            r == self.kind,
    {
        self.kind
    }

    pub fn name(self) -> (r: &'static str)
        ensures
            r@ == provider_kind_name(self.kind),
    {
        self.kind.name()
    }
}

/// The host is `grsai.com` or one of its subdomains.
pub open spec fn is_grsai_host(h: Seq<char>) -> bool {
    h == "grsai.com"@ || ends_with(h, ".grsai.com"@)
}

pub open spec fn is_aiapidev_host(h: Seq<char>) -> bool {
    h == "aiapidev.com"@ || h == "www.aiapidev.com"@
}

pub open spec fn spec_is_grsai_base_url(raw: Seq<char>) -> bool {
    match url_host_lower(raw) {
        Some(h) => is_grsai_host(h),
        None => false,
    }
}

pub open spec fn spec_is_aiapidev_provider_url(raw: Seq<char>) -> bool {
    match url_host_lower(raw) {
        Some(h) => is_aiapidev_host(h),
        None => false,
    }
}

/// The provider of a base URL: grsai first, then aiapidev, else the
/// transparent Gemini passthrough.
pub open spec fn spec_resolve_provider(raw: Seq<char>) -> ProviderKind {
    if spec_is_grsai_base_url(raw) {
        ProviderKind::Grsai
    } else if spec_is_aiapidev_provider_url(raw) {
        ProviderKind::Aiapidev
    } else {
        ProviderKind::Transparent
    }
}

pub fn resolve_provider(base_url: &str) -> (r: Provider)
    ensures
        r.kind == spec_resolve_provider(base_url@),
{
    if is_grsai_base_url(base_url) {
        return Provider { kind: ProviderKind::Grsai };
    }
    if is_aiapidev_base_url(base_url) {
        return Provider { kind: ProviderKind::Aiapidev };
    }
    Provider { kind: ProviderKind::Transparent }
}

/// Whether `h` spells `w`.
fn host_is(h: &Vec<char>, w: &str) -> (r: bool)
    ensures
        r == (h@ == w@),
{
    let wv = chars_of(w);
    crate::text::seq_eq(h, &wv)
}

pub fn is_grsai_base_url(raw: &str) -> (r: bool)
    ensures
        r == spec_is_grsai_base_url(raw@),
{
    match host_lower_of(raw) {
        Some(host) => {
            let h = chars_of(host.as_str());
            let suffix = chars_of(".grsai.com");
            host_is(&h, "grsai.com") || ends_with_vec(&h, &suffix)
        },
        None => false,
    }
}

pub fn is_aiapidev_base_url(raw: &str) -> (r: bool)
    ensures
        r == spec_is_aiapidev_provider_url(raw@),
{
    match host_lower_of(raw) {
        Some(host) => {
            let h = chars_of(host.as_str());
            host_is(&h, "aiapidev.com") || host_is(&h, "www.aiapidev.com")
        },
        None => false,
    }
}

} // verus!
