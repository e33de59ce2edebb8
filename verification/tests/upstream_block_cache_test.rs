use rust_sync_proxy::json::JsonValue;
use rust_sync_proxy::upstream_block_cache::{
    canonicalize_json, classify_blockable_upstream_error, CachedBlockResponse, UpstreamBlockCache,
    UpstreamBlockCacheKey,
};
use serde_json::Value;

fn bc_doc(v: &Value) -> JsonValue {
    match v {
        Value::Null => JsonValue::Null,
        Value::Bool(b) => JsonValue::Bool(*b),
        Value::Number(n) => JsonValue::Number(n.to_string()),
        Value::String(s) => JsonValue::Str(s.clone()),
        Value::Array(items) => JsonValue::Array(items.iter().map(bc_doc).collect()),
        Value::Object(map) => {
            JsonValue::Object(map.iter().map(|(k, v)| (k.clone(), bc_doc(v))).collect())
        }
    }
}

fn bc_parse(text: &str) -> JsonValue {
    bc_doc(&serde_json::from_str::<Value>(text).unwrap())
}

#[test]
fn classifier_requires_400_or_502_and_known_keyword() {
    assert_eq!(
        classify_blockable_upstream_error(502, br#"content blocked: {"error_code":"image_unsafe"}"#),
        Some("image_unsafe")
    );
    assert_eq!(
        classify_blockable_upstream_error(400, b"Upstream moderation triggered: output_moderation"),
        Some("upstream_moderation")
    );
    assert_eq!(
        classify_blockable_upstream_error(400, b"content blocked"),
        Some("content_blocked")
    );
    assert_eq!(classify_blockable_upstream_error(429, b"image_unsafe"), None);
    assert_eq!(
        classify_blockable_upstream_error(502, b"temporary upstream error"),
        None
    );
}

#[test]
fn key_ignores_object_order_and_preserves_array_order() {
    let first = bc_parse(
        r#"{"contents": [{"parts": [{"text": "first"}, {"text": "second"}]}],
            "generationConfig": {"temperature": 0.7, "topP": 0.9}}"#,
    );
    let second = bc_parse(
        r#"{"generationConfig": {"topP": 0.9, "temperature": 0.7},
            "contents": [{"parts": [{"text": "first"}, {"text": "second"}]}]}"#,
    );
    let reversed_array = bc_parse(
        r#"{"generationConfig": {"temperature": 0.7, "topP": 0.9},
            "contents": [{"parts": [{"text": "second"}, {"text": "first"}]}]}"#,
    );

    let first_key = UpstreamBlockCacheKey::new(
        "/v1beta/models/demo:generateContent",
        "https://upstream.example",
        &first,
    );
    let second_key = UpstreamBlockCacheKey::new(
        "/v1beta/models/demo:generateContent",
        "https://upstream.example",
        &second,
    );
    let reversed_key = UpstreamBlockCacheKey::new(
        "/v1beta/models/demo:generateContent",
        "https://upstream.example",
        &reversed_array,
    );

    assert_eq!(first_key, second_key);
    assert_ne!(first_key, reversed_key);
}

#[test]
fn canonical_form_sorts_members_and_keeps_the_first_of_a_repeated_name() {
    let doc = JsonValue::Object(vec![
        ("b".to_string(), JsonValue::Number("1".to_string())),
        ("a".to_string(), JsonValue::Array(vec![bc_parse(r#"{"z": 1, "y": 2}"#)])),
        ("b".to_string(), JsonValue::Number("2".to_string())),
    ]);
    let canonical = canonicalize_json(&doc);
    assert_eq!(
        canonical,
        JsonValue::Object(vec![
            ("a".to_string(), JsonValue::Array(vec![bc_parse(r#"{"y": 2, "z": 1}"#)])),
            ("b".to_string(), JsonValue::Number("1".to_string())),
        ])
    );
}

#[test]
fn key_lists_path_upstream_and_body_hash() {
    let key = UpstreamBlockCacheKey::new("/a", "https://u.example", &bc_parse("null"));
    assert_eq!(
        key.as_str(),
        "/a\nhttps://u.example\n74234e98afe7498fb5daf1f36ac2d78acc339464f950703b8c019892f982b90b"
    );
}

fn bc_entry(message: &str) -> CachedBlockResponse {
    CachedBlockResponse {
        status: 502,
        content_type: "application/json".to_string(),
        body: message.as_bytes().to_vec(),
        reason: "content_blocked".to_string(),
    }
}

#[test]
fn cache_returns_hits_until_ttl_expires() {
    let mut cache = UpstreamBlockCache::new(50, 8).unwrap();
    let key = UpstreamBlockCacheKey::new(
        "/v1/images/generations",
        "https://upstream.example",
        &bc_parse(r#"{"prompt": "blocked"}"#),
    );
    cache.insert(key.clone(), bc_entry(r#"{"error":{"message":"content blocked"}}"#), 1_000);

    let hit = cache.get(&key, 1_010).expect("cache hit before ttl");
    assert_eq!(hit.status, 502);
    assert_eq!(hit.content_type, "application/json");
    assert_eq!(hit.reason, "content_blocked");
    assert_eq!(hit.body, br#"{"error":{"message":"content blocked"}}"#.to_vec());

    assert!(cache.get(&key, 1_070).is_none());
    assert!(cache.get(&key, 1_010).is_none());
}

#[test]
fn cache_evicts_least_recently_used_entry() {
    let mut cache = UpstreamBlockCache::new(60_000, 2).unwrap();
    let key_a = UpstreamBlockCacheKey::new("/a", "https://upstream.example", &bc_parse(r#"{"p": "a"}"#));
    let key_b = UpstreamBlockCacheKey::new("/b", "https://upstream.example", &bc_parse(r#"{"p": "b"}"#));
    let key_c = UpstreamBlockCacheKey::new("/c", "https://upstream.example", &bc_parse(r#"{"p": "c"}"#));

    cache.insert(key_a.clone(), bc_entry("a"), 0);
    cache.insert(key_b.clone(), bc_entry("b"), 1);
    assert!(cache.get(&key_a, 2).is_some());
    cache.insert(key_c.clone(), bc_entry("c"), 3);

    assert!(cache.get(&key_a, 4).is_some());
    assert!(cache.get(&key_b, 4).is_none());
    assert!(cache.get(&key_c, 4).is_some());
}

#[test]
fn cache_prunes_expired_entries_before_inserting_new_entry() {
    let mut cache = UpstreamBlockCache::new(60_000, 2).unwrap();
    let key_a = UpstreamBlockCacheKey::new("/a", "https://upstream.example", &bc_parse(r#"{"p": "a"}"#));
    let key_b = UpstreamBlockCacheKey::new("/b", "https://upstream.example", &bc_parse(r#"{"p": "b"}"#));
    let key_c = UpstreamBlockCacheKey::new("/c", "https://upstream.example", &bc_parse(r#"{"p": "c"}"#));

    // `a` goes in long before `b`, so that it has expired (and only it) when
    // `c` arrives, though `b` is the least recently used entry then.
    cache.insert(key_a.clone(), bc_entry("a"), 0);
    cache.insert(key_b.clone(), bc_entry("b"), 30_000);
    assert!(cache.get(&key_a, 30_001).is_some());
    cache.insert(key_c.clone(), bc_entry("c"), 60_000);

    assert!(cache.get(&key_a, 60_001).is_none());
    assert!(cache.get(&key_b, 60_001).is_some());
    assert!(cache.get(&key_c, 60_001).is_some());
}

#[test]
fn cache_is_disabled_by_a_zero_ttl_or_size() {
    assert!(UpstreamBlockCache::new(0, 8).is_none());
    assert!(UpstreamBlockCache::new(1_000, 0).is_none());
}
