use rust_sync_proxy::json::JsonValue;
use serde_json::Value;

fn auth_doc(text: &str) -> JsonValue {
    auth_from_serde(&serde_json::from_str::<Value>(text).unwrap())
}

fn auth_from_serde(v: &Value) -> JsonValue {
    match v {
        Value::Null => JsonValue::Null,
        Value::Bool(b) => JsonValue::Bool(*b),
        Value::Number(n) => JsonValue::Number(n.to_string()),
        Value::String(s) => JsonValue::Str(s.clone()),
        Value::Array(items) => JsonValue::Array(items.iter().map(auth_from_serde).collect()),
        Value::Object(map) => JsonValue::Object(
            map.iter().map(|(k, v)| (k.clone(), auth_from_serde(v))).collect(),
        ),
    }
}

#[test]
fn bearer_token_can_override_base_url_and_api_key() {
    let headers = [("authorization", "Bearer https://demo.example|secret")];
    let resolved =
        rust_sync_proxy::upstream::resolve_upstream(&headers, "https://magic666.top", "env-key")
            .unwrap();
    assert_eq!(resolved.base_url, "https://demo.example");
    assert_eq!(resolved.api_key, "secret");
}

#[test]
fn dual_upstream_token_uses_second_group_for_4k_requests() {
    let headers = [(
        "x-goog-api-key",
        "https://first.example|first-key,https://second.example|second-key",
    )];
    let request_body = auth_doc(r#"{"generationConfig": {"imageConfig": {"imageSize": "4k"}}}"#);
    let resolved = rust_sync_proxy::upstream::resolve_upstream_for_request(
        &headers,
        &request_body,
        "https://magic666.top",
        "env-key",
    )
    .unwrap();

    assert_eq!(resolved.base_url, "https://second.example");
    assert_eq!(resolved.api_key, "second-key");
}

#[test]
fn dual_upstream_token_uses_first_group_for_non_4k_requests() {
    let headers = [(
        "x-goog-api-key",
        "https://first.example|first-key,https://second.example|second-key",
    )];
    let request_body = auth_doc(r#"{"generationConfig": {"imageConfig": {"imageSize": "2k"}}}"#);
    let resolved = rust_sync_proxy::upstream::resolve_upstream_for_request(
        &headers,
        &request_body,
        "https://magic666.top",
        "env-key",
    )
    .unwrap();

    assert_eq!(resolved.base_url, "https://first.example");
    assert_eq!(resolved.api_key, "first-key");
}

#[test]
fn malformed_dual_upstream_token_returns_error() {
    let headers = [(
        "x-goog-api-key",
        "https://first.example|first-key,second-key-only",
    )];
    let request_body = auth_doc(r#"{"generationConfig": {"imageConfig": {"imageSize": "4K"}}}"#);
    let err = rust_sync_proxy::upstream::resolve_upstream_for_request(
        &headers,
        &request_body,
        "https://magic666.top",
        "env-key",
    )
    .unwrap_err();

    assert!(
        err.to_string().contains("dual upstream"),
        "unexpected error: {err:?}"
    );
}

#[test]
fn aiapidev_base_url_is_detected() {
    assert!(rust_sync_proxy::upstream::is_aiapidev_base_url(
        "https://www.aiapidev.com"
    ));
    assert!(rust_sync_proxy::upstream::is_aiapidev_base_url(
        "https://aiapidev.com"
    ));
    assert!(!rust_sync_proxy::upstream::is_aiapidev_base_url(
        "https://example.com"
    ));
}

#[test]
fn aiapidev_model_path_is_mapped() {
    assert_eq!(
        rust_sync_proxy::upstream::rewrite_aiapidev_model_path(
            "/v1beta/models/gemini-3-pro-image-preview:generateContent"
        ),
        "/v1beta/models/nanobananapro:generateContent"
    );
    assert_eq!(
        rust_sync_proxy::upstream::rewrite_aiapidev_model_path(
            "/v1beta/models/gemini-3.1-flash-image-preview:generateContent"
        ),
        "/v1beta/models/nanobanana2:generateContent"
    );
    assert_eq!(
        rust_sync_proxy::upstream::rewrite_aiapidev_model_path(
            "/v1beta/models/other-model:generateContent"
        ),
        "/v1beta/models/other-model:generateContent"
    );
}

#[test]
fn missing_api_key_is_unauthorized() {
    let headers: [(&str, &str); 0] = [];
    let err = rust_sync_proxy::upstream::resolve_upstream(&headers, "https://magic666.top", "  ")
        .unwrap_err();
    assert_eq!(err.status_code(), 401);
    assert_eq!(err.to_string(), "Missing upstream apiKey");
}

#[test]
fn rewriting_a_model_path_twice_changes_nothing_more() {
    for path in [
        "/v1beta/models/gemini-3-pro-image-preview:generateContent?alt=sse",
        "/v1beta/models/gemini-3.1-flash-image-preview:generateContent",
        "/v1beta/models/other:generateContent",
        "/v1beta/tasks/abc",
    ] {
        let once = rust_sync_proxy::upstream::rewrite_aiapidev_model_path(path);
        let twice = rust_sync_proxy::upstream::rewrite_aiapidev_model_path(&once);
        assert_eq!(once, twice);
    }
    assert_eq!(
        rust_sync_proxy::upstream::rewrite_aiapidev_model_path(
            "/v1beta/models/gemini-3-pro-image-preview:generateContent?alt=sse"
        ),
        "/v1beta/models/nanobananapro:generateContent?alt=sse"
    );
}

#[test]
fn authorization_without_bearer_and_no_default_key_is_unauthorized() {
    let headers = [("Authorization", "Basic abc"), ("x-goog-api-key", "   ")];
    let body = JsonValue::Null;
    let err = rust_sync_proxy::upstream::resolve_upstream_for_request(&headers, &body, "https://a.example", "")
        .unwrap_err();
    assert_eq!(err.status_code(), 401);
    assert_eq!(err.to_string(), "Missing upstream apiKey");
    let ok = rust_sync_proxy::upstream::resolve_upstream_for_request(
        &[("x-goog-api-key", " k1 ")],
        &body,
        "https://a.example",
        "",
    )
    .unwrap();
    assert_eq!(ok.api_key, "k1");
}
