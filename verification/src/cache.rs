//! What the image fetch caches decide: the key of a cached URL, whether a
//! fetch goes through the external image proxy, whether a failed fetch is
//! retried, the error of a download left to finish in the background, and
//! the in-memory cache of fetched images, bounded by its total bytes.
use std::time::Duration;

use vstd::prelude::*;

use crate::config::strings_view;
use crate::crypto::{hex_lower, sha256_digest, sha256_hex_text};
use crate::image_io::{copy_bytes, hostname_matches_domain_patterns, spec_hostname_matches};
use crate::keyed::{distinct_names, first_value, has_key, key_differs, lemma_first_value_absent, lemma_first_value_distinct, lemma_keep_all, lemma_keep_distinct, lemma_without_key_drops, put_entry, without_key};
use crate::text::{concat, own, utf8};
use crate::urls::{form_urlencode, form_urlencoded_bytes, parse_url, url_parse_outcome};

verus! {

/// The image proxy that fetches go through for the configured domains.
pub const EXTERNAL_IMAGE_FETCH_PROXY_PREFIX: &'static str =
    "https://gemini.xinbaoai.com/proxy/image?url=";

/// Seconds before a failed fetch is tried once more.
pub const INLINE_DATA_FETCH_RETRY_DELAY_SECS: u64 = 1;

/// The message of a fetch that hit its total timeout.
pub const FETCH_TIMEOUT_MESSAGE: &'static str = "inlineData 图片抓取超时";

/// The file stem (and map key) of a cached URL: the lowercase hex SHA-256
/// of its UTF-8 bytes.
pub fn cache_key(url: &str) -> (r: String)
    ensures
        r@ == hex_lower(sha256_digest(utf8(url@))),
{
    sha256_hex_text(url)
}

/// The URL a fetch requests: through the external image proxy when the
/// URL's host matches one of the patterns, else the URL itself; an error
/// when patterns are set and the URL does not parse.
pub open spec fn spec_fetch_url(raw: Seq<char>, patterns: Seq<Seq<char>>) -> Result<Seq<char>, Seq<char>> {
    if patterns.len() == 0 {
        Ok(raw)
    } else {
        match url_parse_outcome(raw) {
            Err(e) => Err(e),
            Ok(p) => {
                let host = match p.1 {
                    Some(h) => h,
                    None => Seq::empty(),
                };
                if !spec_hostname_matches(host, patterns) {
                    Ok(raw)
                } else {
                    Ok(EXTERNAL_IMAGE_FETCH_PROXY_PREFIX@ + form_urlencoded_bytes(raw))
                }
            },
        }
    }
}

pub fn maybe_wrap_external_proxy_url(raw_url: &str, patterns: &[String]) -> (r: Result<String, String>)
    ensures
        match r {
            Ok(u) => spec_fetch_url(raw_url@, strings_view(patterns@)) == Ok::<Seq<char>, Seq<char>>(u@),
            Err(e) => spec_fetch_url(raw_url@, strings_view(patterns@)) == Err::<Seq<char>, Seq<char>>(e@),
        },
{
    if patterns.len() == 0 {
        return Ok(crate::text::own(raw_url));
    }
    let parsed = match parse_url(raw_url) {
        Ok(p) => p,
        Err(e) => {
            return Err(e);
        },
    };
    let host = match &parsed.host {
        Some(h) => h.clone(),
        None => String::new(),
    };
    if !hostname_matches_domain_patterns(host.as_str(), patterns) {
        return Ok(crate::text::own(raw_url));
    }
    let encoded = form_urlencode(raw_url);
    Ok(concat(EXTERNAL_IMAGE_FETCH_PROXY_PREFIX, encoded.as_str()))
}

/// What is known of a failed fetch.
#[derive(Clone, Copy, Debug, PartialEq, Eq, Structural)]
pub enum FetchFailure {
    /// The fetch hit its total timeout.
    TimedOut,
    /// The image server answered with a failing status.
    Status { code: u16 },
    /// The HTTP client failed: while reading or decoding the body, while
    /// connecting, or while sending the request.
    Transport { is_body: bool, is_decode: bool, is_connect: bool, is_request: bool },
    /// Anything else.
    Other,
}

pub open spec fn spec_should_retry(f: FetchFailure) -> bool {
    match f {
        FetchFailure::TimedOut => false,
        FetchFailure::Status { code } => code == 408 || code == 425 || code == 429 || code == 500
            || code == 502 || code == 503 || code == 504,
        FetchFailure::Transport { is_body, is_decode, is_connect, is_request } => !(is_body
            || is_decode) && (is_connect || is_request),
        FetchFailure::Other => false,
    }
}

/// Whether a failed fetch is tried once more: retryable statuses and
/// failures to connect or send, never a timeout or a broken body.
pub fn should_retry_fetch_error(failure: FetchFailure) -> (r: bool)
    ensures
        r == spec_should_retry(failure),
{
    match failure {
        FetchFailure::TimedOut => false,
        FetchFailure::Status { code } => code == 408 || code == 425 || code == 429 || code == 500
            || code == 502 || code == 503 || code == 504,
        FetchFailure::Transport { is_body, is_decode, is_connect, is_request } => {
            if is_body || is_decode {
                false
            } else {
                is_connect || is_request
            }
        },
        FetchFailure::Other => false,
    }
}

/// What `format!("{:?}", duration)` writes for a duration.
pub uninterp spec fn duration_debug_text(d: Duration) -> Seq<char>;

/// Calls `Duration`'s `Debug`; the text is named `duration_debug_text`.
#[verifier::external_body]
fn duration_debug(d: Duration) -> (r: String)
    ensures
        r@ == duration_debug_text(d),
{
    format!("{d:?}")
}

/// How long a caller waits for a download running in the background, in
/// milliseconds: the wait timeout, or the total timeout when no wait
/// timeout is set.
pub fn background_wait_ms(wait_timeout_ms: u64, total_timeout_ms: u64) -> (r: u64)
    ensures
        r == if wait_timeout_ms == 0 {
            total_timeout_ms
        } else {
            wait_timeout_ms
        },
{
    if wait_timeout_ms == 0 {
        total_timeout_ms
    } else {
        wait_timeout_ms
    }
}

/// A fetch that outlived the wait and finishes in the background.
#[derive(Debug)]
pub struct BackgroundFetchWaitTimeoutError {
    pub wait_timeout: Duration,
    pub total_timeout: Duration,
}

impl BackgroundFetchWaitTimeoutError {
    /// The error's message.
    pub fn to_string(&self) -> (r: String)
        ensures
            r@ == "inlineData 图片抓取超时（已转后台继续下载）: wait="@ + duration_debug_text(
                self.wait_timeout,
            ) + " total="@ + duration_debug_text(self.total_timeout),
    {
        let w = duration_debug(self.wait_timeout);
        let t = duration_debug(self.total_timeout);
        let a = concat("inlineData 图片抓取超时（已转后台继续下载）: wait=", w.as_str());
        let b = concat(a.as_str(), " total=");
        concat(b.as_str(), t.as_str())
    }
}


// ---------------------------------------------------------------------
// In-memory image cache
// ---------------------------------------------------------------------
/// A fetched image: its MIME type and bytes.
pub struct CachedInlineData {
    pub mime_type: String,
    pub bytes: Vec<u8>,
}

/// A cached image's MIME type and bytes.
pub type MemoryValueView = (Seq<char>, Seq<u8>);

pub open spec fn memory_value_view(v: (String, Vec<u8>)) -> MemoryValueView {
    (v.0@, v.1@)
}

/// The entries of an `LruCache` of images, most recently used first: each
/// URL with its image.
pub uninterp spec fn memory_lru_entries(c: lru::LruCache<String, (String, Vec<u8>)>) -> Seq<(Seq<char>, MemoryValueView)>;

/// The capacity an `LruCache` of images was made with.
pub uninterp spec fn memory_lru_cap(c: lru::LruCache<String, (String, Vec<u8>)>) -> nat;

/// Calls `LruCache::unbounded`: an empty cache whose capacity is
/// `usize::MAX`.
#[verifier::external_body]
fn memory_lru_unbounded() -> (r: lru::LruCache<String, (String, Vec<u8>)>)
    ensures
        memory_lru_entries(r) == Seq::<(Seq<char>, MemoryValueView)>::empty(),
        memory_lru_cap(r) == usize::MAX,
{
    lru::LruCache::unbounded()
}

/// Calls `LruCache::get` and clones the image found: a present URL's entry
/// moves to the front; an absent URL changes nothing.
#[verifier::external_body]
fn memory_lru_get(c: &mut lru::LruCache<String, (String, Vec<u8>)>, key: &str) -> (r: Option<(String, Vec<u8>)>)
    ensures
        memory_lru_cap(*final(c)) == memory_lru_cap(*old(c)),
        match r {
            Some(v) => {
                &&& memory_lru_entries(*old(c)).contains((key@, memory_value_view(v)))
                &&& memory_lru_entries(*final(c)) == seq![(key@, memory_value_view(v))]
                    + without_key(memory_lru_entries(*old(c)), key@)
            },
            None => {
                &&& !has_key(memory_lru_entries(*old(c)), key@)
                &&& memory_lru_entries(*final(c)) == memory_lru_entries(*old(c))
            },
        },
{
    c.get(key).cloned()
}

/// Calls `LruCache::pop`: the URL's entry, if any, leaves, and its image
/// is handed back.
#[verifier::external_body]
fn memory_lru_pop(c: &mut lru::LruCache<String, (String, Vec<u8>)>, key: &str) -> (r: Option<(String, Vec<u8>)>)
    ensures
        memory_lru_cap(*final(c)) == memory_lru_cap(*old(c)),
        memory_lru_entries(*final(c)) == without_key(memory_lru_entries(*old(c)), key@),
        match r {
            Some(v) => memory_lru_entries(*old(c)).contains((key@, memory_value_view(v))),
            None => !has_key(memory_lru_entries(*old(c)), key@),
        },
{
    c.pop(key)
}

/// Calls `LruCache::pop_lru`: the least recently used entry leaves and is
/// handed back.
#[verifier::external_body]
fn memory_lru_pop_lru(c: &mut lru::LruCache<String, (String, Vec<u8>)>) -> (r: Option<(String, (String, Vec<u8>))>)
    ensures
        memory_lru_cap(*final(c)) == memory_lru_cap(*old(c)),
        match r {
            Some(e) => {
                &&& memory_lru_entries(*old(c)).len() > 0
                &&& (e.0@, memory_value_view(e.1)) == memory_lru_entries(*old(c)).last()
                &&& memory_lru_entries(*final(c)) == memory_lru_entries(*old(c)).drop_last()
            },
            None => {
                &&& memory_lru_entries(*old(c)).len() == 0
                &&& memory_lru_entries(*final(c)) == memory_lru_entries(*old(c))
            },
        },
{
    c.pop_lru()
}

/// Calls `LruCache::push`: the entry goes in front, as with `put`, and the
/// entry it replaced or evicted, if any, is handed back.
#[verifier::external_body]
fn memory_lru_push(c: &mut lru::LruCache<String, (String, Vec<u8>)>, key: String, value: (String, Vec<u8>)) -> (r: Option<(String, (String, Vec<u8>))>)
    ensures
        memory_lru_cap(*final(c)) == memory_lru_cap(*old(c)),
        memory_lru_entries(*final(c)) == put_entry(
            memory_lru_entries(*old(c)),
            key@,
            memory_value_view(value),
            memory_lru_cap(*old(c)),
        ),
        match r {
            Some(e) => if has_key(memory_lru_entries(*old(c)), key@) {
                &&& e.0@ == key@
                &&& memory_lru_entries(*old(c)).contains((key@, memory_value_view(e.1)))
            } else {
                &&& memory_lru_entries(*old(c)).len() >= memory_lru_cap(*old(c))
                &&& (e.0@, memory_value_view(e.1)) == memory_lru_entries(*old(c)).last()
            },
            None => {
                &&& !has_key(memory_lru_entries(*old(c)), key@)
                &&& memory_lru_entries(*old(c)).len() < memory_lru_cap(*old(c))
            },
        },
{
    c.push(key, value)
}

/// The bytes held by the entries.
pub open spec fn memory_bytes(s: Seq<(Seq<char>, MemoryValueView)>) -> nat
    decreases s.len(),
{
    if s.len() == 0 {
        0
    } else {
        memory_bytes(s.drop_last()) + s.last().1.1.len()
    }
}

/// The entries left once the least recently used have gone, one by one,
/// until `size` more bytes fit within `max`.
pub open spec fn evict_until_fits(s: Seq<(Seq<char>, MemoryValueView)>, size: nat, max: nat) -> Seq<(Seq<char>, MemoryValueView)>
    decreases s.len(),
{
    if s.len() == 0 || memory_bytes(s) + size <= max {
        s
    } else {
        evict_until_fits(s.drop_last(), size, max)
    }
}

/// The entries after storing an image under a URL: nothing changes for an
/// image larger than the whole budget; otherwise the URL's old entry goes,
/// the least recently used go until the image fits, and it goes in front.
pub open spec fn memory_after_set(
    s: Seq<(Seq<char>, MemoryValueView)>,
    k: Seq<char>,
    v: MemoryValueView,
    max: nat,
    cap: nat,
) -> Seq<(Seq<char>, MemoryValueView)> {
    if v.1.len() > max {
        s
    } else {
        put_entry(evict_until_fits(without_key(s, k), v.1.len(), max), k, v, cap)
    }
}

proof fn lemma_memory_bytes_cons(x: (Seq<char>, MemoryValueView), s: Seq<(Seq<char>, MemoryValueView)>)
    ensures
        memory_bytes(seq![x] + s) == x.1.1.len() + memory_bytes(s),
    decreases s.len(),
{
    if s.len() == 0 {
        assert((seq![x] + s).drop_last() =~= Seq::<(Seq<char>, MemoryValueView)>::empty());
        assert(seq![x] + s =~= seq![x]);
        reveal_with_fuel(memory_bytes, 2);
    } else {
        lemma_memory_bytes_cons(x, s.drop_last());
        assert((seq![x] + s).drop_last() =~= seq![x] + s.drop_last());
        assert((seq![x] + s).last() == s.last());
    }
}

proof fn lemma_memory_bytes_without(s: Seq<(Seq<char>, MemoryValueView)>, k: Seq<char>, v: MemoryValueView)
    requires
        distinct_names(s),
        s.contains((k, v)),
    ensures
        memory_bytes(without_key(s, k)) + v.1.len() == memory_bytes(s),
    decreases s.len(),
{
    let init = s.drop_last();
    let i = choose|i: int| 0 <= i < s.len() && s[i] == (k, v);
    assert(distinct_names(init)) by {
        assert forall|a: int, b: int| 0 <= a < b < init.len() implies #[trigger] init[a].0 != #[trigger] init[b].0 by {
            assert(init[a] == s[a] && init[b] == s[b]);
        }
    }
    let kd = key_differs::<MemoryValueView>(k);
    let w0 = without_key(init, k);
    assert(without_key(s, k) == (if s.last().0 != k {
        w0.push(s.last())
    } else {
        w0
    }));
    assert(w0.push(s.last()).drop_last() =~= w0);
    assert(memory_bytes(w0.push(s.last())) == memory_bytes(w0) + s.last().1.1.len());
    if s.last().0 == k {
        if i != s.len() - 1 {
            assert(s[i].0 != s[s.len() - 1].0);
        }
        assert forall|m: int| 0 <= m < init.len() implies (#[trigger] key_differs::<MemoryValueView>(k))(init[m]) by {
            assert(init[m] == s[m]);
            assert(s[m].0 != s[s.len() - 1].0);
        }
        lemma_keep_all(init, key_differs::<MemoryValueView>(k));
    } else {
        assert(init[i] == (k, v));
        lemma_memory_bytes_without(init, k, v);
    }
}

/// Images kept in memory, most recently used first, within a budget of
/// bytes: storing one evicts the least recently used until it fits.
pub struct MemoryCache {
    items: lru::LruCache<String, (String, Vec<u8>)>,
    max_bytes: u64,
    cur_bytes: u64,
}

impl MemoryCache {
    /// The most bytes the cache holds.
    pub closed spec fn max_bytes(&self) -> u64 {
        self.max_bytes
    }

    /// The bytes the cache holds now.
    pub closed spec fn cur_bytes(&self) -> u64 {
        self.cur_bytes
    }

    /// The capacity of the underlying `LruCache`.
    pub closed spec fn capacity(&self) -> nat {
        memory_lru_cap(self.items)
    }

    /// The images held, most recently used first.
    pub closed spec fn stored(&self) -> Seq<(Seq<char>, MemoryValueView)> {
        memory_lru_entries(self.items)
    }

    /// The count of bytes is exact and within the budget; no URL is held
    /// twice.
    pub open spec fn wf(&self) -> bool {
        &&& self.capacity() > 0
        &&& distinct_names(self.stored())
        &&& self.cur_bytes() == memory_bytes(self.stored())
        &&& self.cur_bytes() <= self.max_bytes()
    }

    /// An empty cache with a budget of `max_bytes`.
    pub fn new(max_bytes: u64) -> (r: Self)
        ensures
            r.wf(),
            r.max_bytes() == max_bytes,
            r.capacity() == usize::MAX,
            r.stored() == Seq::<(Seq<char>, MemoryValueView)>::empty(),
    {
        MemoryCache { items: memory_lru_unbounded(), max_bytes, cur_bytes: 0 }
    }

    /// The image held for a URL, which becomes the most recently used.
    pub fn get(&mut self, url: &str) -> (r: Option<CachedInlineData>)
        requires
            old(self).wf(),
        ensures
            final(self).wf(),
            final(self).max_bytes() == old(self).max_bytes(),
            final(self).capacity() == old(self).capacity(),
            match first_value(old(self).stored(), url@) {
                None => r is None && final(self).stored() == old(self).stored(),
                Some(v) => {
                    &&& r is Some
                    &&& (r->0.mime_type@, r->0.bytes@) == v
                    &&& final(self).stored() == seq![(url@, v)] + without_key(old(self).stored(), url@)
                },
            },
    {
        let ghost s0 = self.stored();
        match memory_lru_get(&mut self.items, url) {
            None => {
                proof {
                    lemma_first_value_absent(s0, url@);
                }
                None
            },
            Some(found) => {
                let ghost v = memory_value_view(found);
                proof {
                    lemma_first_value_distinct(s0, url@, v);
                    lemma_memory_bytes_without(s0, url@, v);
                    lemma_memory_bytes_cons((url@, v), without_key(s0, url@));
                    lemma_without_key_drops(s0, url@);
                    lemma_keep_distinct(s0, key_differs::<MemoryValueView>(url@));
                    let rest = without_key(s0, url@);
                    let r1 = self.stored();
                    assert forall|i: int, j: int| 0 <= i < j < r1.len() implies #[trigger] r1[i].0
                        != #[trigger] r1[j].0 by {
                        if i == 0 {
                            assert(r1[j] == rest[j - 1]);
                            if rest[j - 1].0 == url@ {
                                assert(has_key(rest, url@));
                            }
                        } else {
                            assert(r1[i] == rest[i - 1] && r1[j] == rest[j - 1]);
                        }
                    }
                }
                Some(CachedInlineData { mime_type: found.0, bytes: found.1 })
            },
        }
    }

    /// Stores an image under a URL: one larger than the whole budget is
    /// not stored; otherwise the URL's old image goes, the least recently
    /// used go until it fits, and it becomes the most recently used.
    pub fn set(&mut self, url: &str, value: &CachedInlineData)
        requires
            old(self).wf(),
        ensures
            final(self).wf(),
            final(self).max_bytes() == old(self).max_bytes(),
            final(self).capacity() == old(self).capacity(),
            final(self).stored() == memory_after_set(
                old(self).stored(),
                url@,
                (value.mime_type@, value.bytes@),
                old(self).max_bytes() as nat,
                old(self).capacity(),
            ),
    {
        let size = value.bytes.len() as u64;
        if size > self.max_bytes {
            return;
        }
        let ghost s0 = self.stored();
        match memory_lru_pop(&mut self.items, url) {
            Some(previous) => {
                proof {
                    lemma_memory_bytes_without(s0, url@, memory_value_view(previous));
                }
                self.cur_bytes = self.cur_bytes - previous.1.len() as u64;
            },
            None => {
                proof {
                    assert forall|m: int| 0 <= m < s0.len() implies (#[trigger] key_differs::<
                        MemoryValueView,
                    >(url@))(s0[m]) by {
                        if s0[m].0 == url@ {
                            assert(has_key(s0, url@));
                        }
                    }
                    lemma_keep_all(s0, key_differs::<MemoryValueView>(url@));
                }
            },
        }
        proof {
            lemma_keep_distinct(s0, key_differs::<MemoryValueView>(url@));
            lemma_without_key_drops(s0, url@);
        }
        let ghost s1 = self.stored();
        while size > self.max_bytes - self.cur_bytes
            invariant
                self.wf(),
                self.max_bytes() == old(self).max_bytes(),
                self.capacity() == old(self).capacity(),
                size <= self.max_bytes,
                size == value.bytes@.len(),
                evict_until_fits(self.stored(), size as nat, self.max_bytes as nat) == evict_until_fits(
                    s1,
                    size as nat,
                    self.max_bytes as nat,
                ),
                !has_key(self.stored(), url@),
            ensures
                self.wf(),
                self.max_bytes() == old(self).max_bytes(),
                self.capacity() == old(self).capacity(),
                size <= self.max_bytes,
                size == value.bytes@.len(),
                evict_until_fits(self.stored(), size as nat, self.max_bytes as nat) == evict_until_fits(
                    s1,
                    size as nat,
                    self.max_bytes as nat,
                ),
                !has_key(self.stored(), url@),
                memory_bytes(self.stored()) + size <= self.max_bytes || self.stored().len() == 0,
            decreases self.stored().len(),
        {
            let ghost before = self.stored();
            match memory_lru_pop_lru(&mut self.items) {
                Some(evicted) => {
                    proof {
                        assert forall|a: int, b: int| 0 <= a < b < self.stored().len() implies #[trigger] self.stored()[a].0
                            != #[trigger] self.stored()[b].0 by {
                            assert(self.stored()[a] == before[a] && self.stored()[b] == before[b]);
                        }
                        if has_key(self.stored(), url@) {
                            let i = choose|i: int| 0 <= i < self.stored().len() && #[trigger] self.stored()[i].0 == url@;
                            assert(before[i].0 == url@);
                        }
                    }
                    self.cur_bytes = self.cur_bytes - evicted.1.1.len() as u64;
                },
                None => {
                    break;
                },
            }
        }
        proof {
            assert(evict_until_fits(self.stored(), size as nat, self.max_bytes as nat) == self.stored());
        }
        let ghost s2 = self.stored();
        let copy = (own(value.mime_type.as_str()), copy_bytes(&value.bytes));
        let evicted = memory_lru_push(&mut self.items, own(url), copy);
        proof {
            lemma_memory_bytes_cons((url@, memory_value_view(copy)), s2);
        }
        match evicted {
            Some(e) => {
                proof {
                    lemma_memory_bytes_cons((url@, memory_value_view(copy)), s2.drop_last());
                    assert(memory_bytes(s2) == memory_bytes(s2.drop_last()) + s2.last().1.1.len());
                }
                self.cur_bytes = self.cur_bytes - e.1.1.len() as u64;
            },
            None => {},
        }
        self.cur_bytes = self.cur_bytes + size;
        proof {
            let r = self.stored();
            let rest = if s2.len() >= self.capacity() {
                s2.drop_last()
            } else {
                s2
            };
            assert forall|a: int, b: int| 0 <= a < b < r.len() implies #[trigger] r[a].0 != #[trigger] r[b].0 by {
                if a == 0 {
                    assert(r[b] == rest[b - 1]);
                    assert(rest[b - 1] == s2[b - 1]);
                    if rest[b - 1].0 == url@ {
                        assert(has_key(s2, url@));
                    }
                } else {
                    assert(r[a] == rest[a - 1] && r[b] == rest[b - 1]);
                    assert(rest[a - 1] == s2[a - 1] && rest[b - 1] == s2[b - 1]);
                }
            }
        }
    }
}

/// An image stored within the budget is what the cache then holds for its
/// URL.
pub proof fn law_memory_set_then_holds(
    s: Seq<(Seq<char>, MemoryValueView)>,
    k: Seq<char>,
    v: MemoryValueView,
    max: nat,
    cap: nat,
)
    requires
        v.1.len() <= max,
        cap > 0,
    ensures
        first_value(memory_after_set(s, k, v, max, cap), k) == Some(v),
{
}


// ---------------------------------------------------------------------
// On-disk image cache: which files go when it is over its budget
// ---------------------------------------------------------------------
/// A cached image seen on disk: when its metadata file was last modified
/// (milliseconds since the epoch) and the size its metadata records.
#[derive(Clone, Copy, Debug, PartialEq, Eq)]
pub struct DiskEntry {
    pub modified_ms: u64,
    pub size_bytes: u64,
}

/// Entry `i` comes before entry `j` when pruning: it was modified earlier,
/// or at the same time and listed earlier.
pub open spec fn older(entries: Seq<DiskEntry>, i: int, j: int) -> bool {
    entries[i].modified_ms < entries[j].modified_ms || (entries[i].modified_ms
        == entries[j].modified_ms && i < j)
}

/// The bytes of the first `n` entries that the plan does not remove.
pub open spec fn kept_size(entries: Seq<DiskEntry>, plan: Seq<int>, n: int) -> nat
    decreases n,
{
    if n <= 0 {
        0
    } else {
        kept_size(entries, plan, n - 1) + if plan.contains(n - 1) {
            0
        } else {
            entries[n - 1].size_bytes as nat
        }
    }
}

/// How many of the first `n` entries the plan does not remove.
pub open spec fn kept_count(plan: Seq<int>, n: int) -> nat
    decreases n,
{
    if n <= 0 {
        0
    } else {
        kept_count(plan, n - 1) + if plan.contains(n - 1) {
            0nat
        } else {
            1nat
        }
    }
}

/// The files to remove, in order: the oldest first, as few as bring the
/// bytes kept within `max`.
pub open spec fn is_prune_plan(entries: Seq<DiskEntry>, max: nat, plan: Seq<int>) -> bool {
    &&& forall|a: int| 0 <= a < plan.len() ==> 0 <= #[trigger] plan[a] < entries.len()
    &&& forall|a: int, b: int|
        0 <= a < b < plan.len() ==> older(entries, #[trigger] plan[a], #[trigger] plan[b])
    &&& forall|a: int, j: int|
        0 <= a < plan.len() && 0 <= j < entries.len() && !plan.contains(j)
            ==> #[trigger] older(entries, plan[a], j)
    &&& kept_size(entries, plan, entries.len() as int) <= max
    &&& forall|t: int|
        0 <= t < plan.len() ==> kept_size(entries, #[trigger] plan.take(t), entries.len() as int)
            > max
}

proof fn lemma_kept_push(entries: Seq<DiskEntry>, plan: Seq<int>, p: int, n: int)
    requires
        0 <= p,
        !plan.contains(p),
    ensures
        p < n ==> kept_size(entries, plan.push(p), n) + entries[p].size_bytes == kept_size(entries, plan, n),
        p < n ==> kept_count(plan.push(p), n) + 1 == kept_count(plan, n),
        n <= p ==> kept_size(entries, plan.push(p), n) == kept_size(entries, plan, n),
        n <= p ==> kept_count(plan.push(p), n) == kept_count(plan, n),
    decreases n,
{
    if n > 0 {
        lemma_kept_push(entries, plan, p, n - 1);
        let q = plan.push(p);
        assert(q.contains(n - 1) <==> (plan.contains(n - 1) || n - 1 == p)) by {
            if q.contains(n - 1) {
                let i = choose|i: int| 0 <= i < q.len() && q[i] == n - 1;
                if i < plan.len() {
                    assert(plan[i] == n - 1);
                }
            }
            if plan.contains(n - 1) {
                let i = choose|i: int| 0 <= i < plan.len() && plan[i] == n - 1;
                assert(q[i] == n - 1);
            }
            if n - 1 == p {
                assert(q[plan.len() as int] == p);
            }
        }
    }
}

proof fn lemma_kept_none(entries: Seq<DiskEntry>, plan: Seq<int>, n: int)
    requires
        kept_count(plan, n) == 0,
    ensures
        kept_size(entries, plan, n) == 0,
    decreases n,
{
    if n > 0 {
        lemma_kept_none(entries, plan, n - 1);
    }
}

proof fn lemma_kept_some(plan: Seq<int>, n: int)
    requires
        kept_count(plan, n) > 0,
    ensures
        exists|j: int| 0 <= j < n && !plan.contains(j),
    decreases n,
{
    if n > 0 && !plan.contains(n - 1) {
        assert(!plan.contains(n - 1));
    } else if n > 0 {
        lemma_kept_some(plan, n - 1);
        let j = choose|j: int| 0 <= j < n - 1 && !plan.contains(j);
        assert(0 <= j < n && !plan.contains(j));
    }
}

/// Which cached files to remove so that the bytes kept fit in `max_bytes`:
/// none when they already fit; otherwise the oldest first (by modification
/// time, then by listing order), as few as needed.
pub fn disk_prune_plan(entries: &[DiskEntry], max_bytes: u64) -> (r: Vec<usize>)
    ensures
        is_prune_plan(entries@, max_bytes as nat, r@.map_values(|i: usize| i as int)),
{
    let n = entries.len();
    let ghost es = entries@;
    let mut remaining: u128 = 0;
    let mut i: usize = 0;
    while i < n
        invariant
            0 <= i <= n,
            n == es.len(),
            es == entries@,
            remaining == kept_size(es, Seq::<int>::empty(), i as int),
            remaining <= i * 18446744073709551615u128,
        decreases n - i,
    {
        remaining = remaining + entries[i].size_bytes as u128;
        i += 1;
    }
    let mut picked: Vec<bool> = Vec::new();
    let mut k: usize = 0;
    while k < n
        invariant
            0 <= k <= n,
            picked@.len() == k,
            forall|j: int| 0 <= j < k ==> !#[trigger] picked@[j],
        decreases n - k,
    {
        picked.push(false);
        k += 1;
    }
    let mut plan: Vec<usize> = Vec::new();
    let ghost mut pv: Seq<int> = Seq::empty();
    proof {
        assert(pv =~= plan@.map_values(|i: usize| i as int));
    }
    while remaining > max_bytes as u128
        invariant
            n == es.len(),
            es == entries@,
            picked@.len() == n,
            pv == plan@.map_values(|i: usize| i as int),
            forall|j: int| 0 <= j < n ==> (#[trigger] picked@[j] <==> pv.contains(j)),
            forall|a: int| 0 <= a < pv.len() ==> 0 <= #[trigger] pv[a] < n,
            forall|a: int, b: int| 0 <= a < b < pv.len() ==> older(es, #[trigger] pv[a], #[trigger] pv[b]),
            forall|a: int, j: int|
                0 <= a < pv.len() && 0 <= j < n && !pv.contains(j) ==> #[trigger] older(es, pv[a], j),
            remaining == kept_size(es, pv, n as int),
            forall|t: int| 0 <= t < pv.len() ==> kept_size(es, #[trigger] pv.take(t), n as int) > max_bytes,
        ensures
            n == es.len(),
            pv == plan@.map_values(|i: usize| i as int),
            forall|a: int| 0 <= a < pv.len() ==> 0 <= #[trigger] pv[a] < n,
            forall|a: int, b: int| 0 <= a < b < pv.len() ==> older(es, #[trigger] pv[a], #[trigger] pv[b]),
            forall|a: int, j: int|
                0 <= a < pv.len() && 0 <= j < n && !pv.contains(j) ==> #[trigger] older(es, pv[a], j),
            kept_size(es, pv, n as int) <= max_bytes,
            forall|t: int| 0 <= t < pv.len() ==> kept_size(es, #[trigger] pv.take(t), n as int) > max_bytes,
        decreases kept_count(pv, n as int),
    {
        let mut best: Option<usize> = None;
        let mut j: usize = 0;
        while j < n
            invariant
                0 <= j <= n,
                n == es.len(),
                es == entries@,
                picked@.len() == n,
                match best {
                    Some(b) => {
                        &&& b < j
                        &&& !picked@[b as int]
                        &&& forall|m: int| 0 <= m < j && !picked@[m] && m != b ==> #[trigger] older(es, b as int, m)
                    },
                    None => forall|m: int| 0 <= m < j ==> #[trigger] picked@[m],
                },
            decreases n - j,
        {
            if !picked[j] {
                match best {
                    None => {
                        best = Some(j);
                    },
                    Some(b) => {
                        if entries[j].modified_ms < entries[b].modified_ms {
                            proof {
                                assert forall|m: int|
                                    0 <= m < j + 1 && !picked@[m] && m != j implies #[trigger] older(
                                    es,
                                    j as int,
                                    m,
                                ) by {
                                    if m != b {
                                        assert(older(es, b as int, m));
                                    }
                                }
                            }
                            best = Some(j);
                        } else {
                            proof {
                                assert(older(es, b as int, j as int));
                            }
                        }
                    },
                }
            }
            j += 1;
        }
        match best {
            None => {
                proof {
                    assert forall|m: int| 0 <= m < n implies pv.contains(m) by {
                        assert(picked@[m]);
                    }
                    if kept_count(pv, n as int) > 0 {
                        lemma_kept_some(pv, n as int);
                    }
                    lemma_kept_none(es, pv, n as int);
                }
                break;
            },
            Some(p) => {
                let ghost old_pv = pv;
                proof {
                    assert(!pv.contains(p as int));
                    lemma_kept_push(es, pv, p as int, n as int);
                    assert(pv.push(p as int).take(pv.len() as int) =~= pv);
                }
                picked.set(p, true);
                plan.push(p);
                proof {
                    pv = pv.push(p as int);
                    assert(pv =~= plan@.map_values(|i: usize| i as int));
                    assert forall|m: int| 0 <= m < n implies (#[trigger] picked@[m] <==> pv.contains(m)) by {
                        if m == p {
                            assert(pv[old_pv.len() as int] == m);
                        } else {
                            if pv.contains(m) {
                                let a = choose|a: int| 0 <= a < pv.len() && pv[a] == m;
                                assert(old_pv[a] == m);
                            }
                            if old_pv.contains(m) {
                                let a = choose|a: int| 0 <= a < old_pv.len() && old_pv[a] == m;
                                assert(pv[a] == m);
                            }
                        }
                    }
                    assert forall|t: int| 0 <= t < pv.len() implies kept_size(es, #[trigger] pv.take(t), n as int) > max_bytes by {
                        if t < old_pv.len() {
                            assert(pv.take(t) =~= old_pv.take(t));
                        } else {
                            assert(pv.take(t) =~= old_pv);
                        }
                    }
                    assert forall|a: int, jj: int|
                        0 <= a < pv.len() && 0 <= jj < n && !pv.contains(jj) implies #[trigger] older(es, pv[a], jj) by {
                        assert(!old_pv.contains(jj)) by {
                            if old_pv.contains(jj) {
                                let c = choose|c: int| 0 <= c < old_pv.len() && old_pv[c] == jj;
                                assert(pv[c] == jj);
                            }
                        }
                        if jj != p {
                            assert(pv[old_pv.len() as int] == p);
                        }
                        if a == old_pv.len() {
                            assert(!picked@[jj] || jj == p);
                        }
                    }
                }
                remaining = remaining - entries[p].size_bytes as u128;
            },
        }
    }
    proof {
        assert(pv =~= plan@.map_values(|i: usize| i as int));
    }
    plan
}

} // verus!
