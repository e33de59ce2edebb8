use rust_sync_proxy::cache::{
    CachedInlineData, DiskEntry, MemoryCache, EXTERNAL_IMAGE_FETCH_PROXY_PREFIX, disk_prune_plan, FetchFailure, cache_key, maybe_wrap_external_proxy_url,
    should_retry_fetch_error,
};

#[test]
fn cache_key_is_sha256_hex_of_the_url() {
    assert_eq!(
        cache_key("abc"),
        "ba7816bf8f01cfea414140de5dae2223b00361a396177a9cb410ff61f20015ad"
    );
}

#[test]
fn fetches_go_through_the_proxy_only_for_listed_domains() {
    let patterns = vec![".oss-cn-hangzhou.aliyuncs.com".to_string()];
    let raw = "https://a.oss-cn-hangzhou.aliyuncs.com/x.png?y=1";
    let encoded: String = url::form_urlencoded::byte_serialize(raw.as_bytes()).collect();
    assert_eq!(
        maybe_wrap_external_proxy_url(raw, &patterns).unwrap(),
        format!("{EXTERNAL_IMAGE_FETCH_PROXY_PREFIX}{encoded}")
    );
    assert_eq!(
        maybe_wrap_external_proxy_url("https://img.example/x.png", &patterns).unwrap(),
        "https://img.example/x.png"
    );
    assert_eq!(maybe_wrap_external_proxy_url("not a url", &[]).unwrap(), "not a url");
    assert!(maybe_wrap_external_proxy_url("not a url", &patterns).is_err());
}

#[test]
fn only_transient_fetch_failures_are_retried() {
    assert!(should_retry_fetch_error(FetchFailure::Status { code: 503 }));
    assert!(!should_retry_fetch_error(FetchFailure::Status { code: 404 }));
    assert!(!should_retry_fetch_error(FetchFailure::TimedOut));
    assert!(should_retry_fetch_error(FetchFailure::Transport {
        is_body: false,
        is_decode: false,
        is_connect: true,
        is_request: false
    }));
    assert!(!should_retry_fetch_error(FetchFailure::Transport {
        is_body: true,
        is_decode: false,
        is_connect: true,
        is_request: true
    }));
    assert!(!should_retry_fetch_error(FetchFailure::Other));
}

#[test]
fn memory_cache_evicts_least_recently_used_to_fit_its_budget() {
    let image = |n: usize| CachedInlineData { mime_type: "image/png".to_string(), bytes: vec![7u8; n] };
    let mut cache = MemoryCache::new(10);
    cache.set("a", &image(4));
    cache.set("b", &image(4));
    assert_eq!(cache.get("a").unwrap().bytes.len(), 4);
    cache.set("c", &image(4));
    assert!(cache.get("b").is_none());
    assert!(cache.get("a").is_some());
    assert!(cache.get("c").is_some());
    cache.set("huge", &image(11));
    assert!(cache.get("huge").is_none());
    cache.set("a", &image(6));
    let a = cache.get("a").unwrap();
    assert_eq!(a.bytes.len(), 6);
    assert_eq!(a.mime_type, "image/png");
    assert!(cache.get("c").is_some());
}

#[test]
fn disk_prune_plan_removes_oldest_until_within_budget() {
    let e = |modified_ms: u64, size_bytes: u64| DiskEntry { modified_ms, size_bytes };
    let entries = vec![e(30, 5), e(10, 5), e(20, 5), e(10, 5)];
    assert_eq!(disk_prune_plan(&entries, 10), vec![1, 3]);
    assert_eq!(disk_prune_plan(&entries, 20), Vec::<usize>::new());
    assert_eq!(disk_prune_plan(&entries, 0), vec![1, 3, 2, 0]);
    assert_eq!(disk_prune_plan(&[], 0), Vec::<usize>::new());
}
