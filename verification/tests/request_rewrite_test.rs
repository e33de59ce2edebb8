use rust_sync_proxy::json::JsonValue;
use serde_json::Value;

fn rw_doc(v: &Value) -> JsonValue {
    match v {
        Value::Null => JsonValue::Null,
        Value::Bool(b) => JsonValue::Bool(*b),
        Value::Number(n) => JsonValue::Number(n.to_string()),
        Value::String(s) => JsonValue::Str(s.clone()),
        Value::Array(items) => JsonValue::Array(items.iter().map(rw_doc).collect()),
        Value::Object(map) => {
            JsonValue::Object(map.iter().map(|(k, v)| (k.clone(), rw_doc(v))).collect())
        }
    }
}

fn rw_parse(text: &str) -> JsonValue {
    rw_doc(&serde_json::from_str::<Value>(text).unwrap())
}

fn rw_value(v: &JsonValue) -> Value {
    match v {
        JsonValue::Null => Value::Null,
        JsonValue::Bool(b) => Value::Bool(*b),
        JsonValue::Number(n) => serde_json::from_str(n).unwrap(),
        JsonValue::Str(s) => Value::String(s.clone()),
        JsonValue::Array(items) => Value::Array(items.iter().map(rw_value).collect()),
        JsonValue::Object(fields) => {
            Value::Object(fields.iter().map(|(k, v)| (k.clone(), rw_value(v))).collect())
        }
    }
}

fn rw_json(text: &str) -> Value {
    serde_json::from_str(text).unwrap()
}

fn parts_body(count: usize) -> JsonValue {
    let parts: Vec<String> = (0..count)
        .map(|index| format!(r#"{{"inlineData": {{"data": "https://img.example/{index}.png"}}}}"#))
        .collect();
    rw_parse(&format!(r#"{{"contents": [{{"parts": [{}]}}]}}"#, parts.join(",")))
}

fn image_body(data: &str, mime: &str) -> JsonValue {
    let mut v = rw_json(r#"{"contents": [{"parts": [{"inlineData": {"data": "", "mimeType": ""}}], "role": "user"}]}"#);
    v["contents"][0]["parts"][0]["inlineData"]["data"] = Value::String(data.to_string());
    v["contents"][0]["parts"][0]["inlineData"]["mimeType"] = Value::String(mime.to_string());
    rw_doc(&v)
}

#[test]
fn collects_unique_inline_data_urls_and_enforces_limit() {
    let body = rw_parse(
        r#"{"contents": [{"parts": [
            {"inlineData": {"data": "https://img.example/a.png"}},
            {"inlineData": {"data": "https://img.example/a.png"}}
        ]}]}"#,
    );

    let scan = rust_sync_proxy::request_rewrite::scan_inline_data_urls(&body).unwrap();
    assert_eq!(scan.unique_urls.len(), 1);
    assert_eq!(scan.total_refs, 2);
}

#[test]
fn scan_inline_data_urls_allows_seven_url_refs() {
    let body = parts_body(7);
    let scan = rust_sync_proxy::request_rewrite::scan_inline_data_urls(&body).unwrap();
    assert_eq!(scan.total_refs, 7);
    assert_eq!(scan.unique_urls.len(), 7);
}

#[test]
fn scan_inline_data_urls_rejects_eight_url_refs() {
    let body = parts_body(8);
    let err = rust_sync_proxy::request_rewrite::scan_inline_data_urls(&body).unwrap_err();
    assert_eq!(err.to_string(), "too many inlineData URLs");
}

#[test]
fn rewrites_aiapidev_request_body_to_file_data_and_snake_case() {
    let body = rw_parse(
        r#"{
        "contents": [{
            "parts": [
                {"text": "两张图片合并"},
                {"inlineData": {"data": "https://n.uguu.se/bCEfckeJ.png", "mimeType": "image/png"}}
            ],
            "role": "user"
        }],
        "generationConfig": {
            "imageConfig": {"aspectRatio": "3:4", "imageSize": "1K", "output": "url"},
            "responseModalities": ["IMAGE"]
        }
    }"#,
    );

    let rewritten =
        rw_value(&rust_sync_proxy::request_rewrite::rewrite_aiapidev_request_body(body, "", &[]));
    let serialized = serde_json::to_string(&rewritten).unwrap();

    assert!(serialized.contains("\"role\":\"user\",\"parts\""));
    assert!(rewritten.get("generationConfig").is_none());
    assert!(
        rewritten["generation_config"]["image_config"]
            .get("output")
            .is_none()
    );
    assert_eq!(
        rewritten["contents"][0]["parts"][1]["file_data"],
        rw_json(r#"{"file_uri": "https://n.uguu.se/bCEfckeJ.png", "mime_type": "image/png"}"#)
    );
    assert_eq!(
        rewritten["generation_config"],
        rw_json(
            r#"{"image_config": {"aspect_ratio": "3:4", "image_size": "1K"}, "response_modalities": ["IMAGE"]}"#
        )
    );
}

#[test]
fn rewrites_aiapidev_request_body_base64_inline_data_to_snake_case_inline_data() {
    let body = image_body("iVBORw0KGgoAAAANSUhEUgAAAAUA", "image/png");

    let rewritten =
        rw_value(&rust_sync_proxy::request_rewrite::rewrite_aiapidev_request_body(body, "", &[]));

    assert_eq!(
        rewritten["contents"][0]["parts"][0]["inline_data"],
        rw_json(r#"{"data": "iVBORw0KGgoAAAANSUhEUgAAAAUA", "mime_type": "image/png"}"#)
    );
    assert!(
        rewritten["contents"][0]["parts"][0]
            .get("inlineData")
            .is_none()
    );
}

fn expected_file_data(uri: &str, mime: &str) -> Value {
    let mut v = rw_json(r#"{"file_uri": "", "mime_type": ""}"#);
    v["file_uri"] = Value::String(uri.to_string());
    v["mime_type"] = Value::String(mime.to_string());
    v
}

#[test]
fn rewrites_aiapidev_request_body_url_inline_data_to_external_proxy_when_domain_matches() {
    let raw_url = "https://miratoon.oss-cn-hangzhou.aliyuncs.com/SHOT_VALUE_IMAGE/demo.jpg";
    let external_proxy_prefix = "https://proxy.example.com/fetch?url=";
    let encoded_raw_url: String =
        url::form_urlencoded::byte_serialize(raw_url.as_bytes()).collect();
    let body = image_body(raw_url, "image/jpeg");

    let rewritten = rw_value(&rust_sync_proxy::request_rewrite::rewrite_aiapidev_request_body(
        body,
        external_proxy_prefix,
        &[".oss-cn-hangzhou.aliyuncs.com".to_string()],
    ));

    assert_eq!(
        rewritten["contents"][0]["parts"][0]["file_data"],
        expected_file_data(
            &format!("{}{}", external_proxy_prefix, encoded_raw_url),
            "image/jpeg"
        )
    );
}

#[test]
fn rewrites_aiapidev_request_body_uses_public_base_url_compatible_proxy_prefix() {
    let raw_url = "https://miratoon.oss-cn-hangzhou.aliyuncs.com/SHOT_VALUE_IMAGE/demo.jpg";
    let encoded_raw_url: String =
        url::form_urlencoded::byte_serialize(raw_url.as_bytes()).collect();
    let mut config = rust_sync_proxy::test_config();
    config.public_base_url = "https://proxy.example.com/base".to_string();
    let external_proxy_prefix = config.resolved_external_image_proxy_prefix();
    let body = image_body(raw_url, "image/jpeg");

    let rewritten = rw_value(&rust_sync_proxy::request_rewrite::rewrite_aiapidev_request_body(
        body,
        &external_proxy_prefix,
        &[".oss-cn-hangzhou.aliyuncs.com".to_string()],
    ));

    assert_eq!(
        rewritten["contents"][0]["parts"][0]["file_data"],
        expected_file_data(
            &format!("{}{}", external_proxy_prefix, encoded_raw_url),
            "image/jpeg"
        )
    );
}

#[test]
fn rewrites_aiapidev_request_body_strips_query_before_external_proxy_when_domain_matches() {
    let raw_url = "https://miratoon.oss-cn-hangzhou.aliyuncs.com/SHOT_VALUE_IMAGE/demo.jpg?x-oss-date=20260415T120247Z&x-oss-signature=demo#fragment";
    let stripped_url = "https://miratoon.oss-cn-hangzhou.aliyuncs.com/SHOT_VALUE_IMAGE/demo.jpg";
    let external_proxy_prefix = "https://proxy.example.com/base/proxy/image?url=";
    let encoded_stripped_url: String =
        url::form_urlencoded::byte_serialize(stripped_url.as_bytes()).collect();
    let body = image_body(raw_url, "image/jpeg");

    let rewritten = rw_value(&rust_sync_proxy::request_rewrite::rewrite_aiapidev_request_body(
        body,
        external_proxy_prefix,
        &[".oss-cn-hangzhou.aliyuncs.com".to_string()],
    ));

    assert_eq!(
        rewritten["contents"][0]["parts"][0]["file_data"],
        expected_file_data(
            &format!("{}{}", external_proxy_prefix, encoded_stripped_url),
            "image/jpeg"
        )
    );
}

#[test]
fn rewrites_aiapidev_request_body_keeps_query_for_non_matching_domain() {
    let raw_url = "https://img.example.com/demo.jpg?token=demo#fragment";
    let body = image_body(raw_url, "image/jpeg");

    let rewritten = rw_value(&rust_sync_proxy::request_rewrite::rewrite_aiapidev_request_body(
        body,
        "",
        &[".oss-cn-hangzhou.aliyuncs.com".to_string()],
    ));

    assert_eq!(
        rewritten["contents"][0]["parts"][0]["file_data"],
        expected_file_data(raw_url, "image/jpeg")
    );
}

#[test]
fn rewrites_aiapidev_request_body_keeps_already_proxied_url_without_double_wrapping() {
    let external_proxy_prefix = "https://proxy.example.com/base/proxy/image?url=";
    let proxied_url = "https://proxy.example.com/base/proxy/image?url=https%3A%2F%2Fmiratoon.oss-cn-hangzhou.aliyuncs.com%2FSHOT_VALUE_IMAGE%2Fdemo.jpg";
    let body = image_body(proxied_url, "image/jpeg");

    let rewritten = rw_value(&rust_sync_proxy::request_rewrite::rewrite_aiapidev_request_body(
        body,
        external_proxy_prefix,
        &[".oss-cn-hangzhou.aliyuncs.com".to_string()],
    ));

    assert_eq!(
        rewritten["contents"][0]["parts"][0]["file_data"],
        expected_file_data(proxied_url, "image/jpeg")
    );
}

#[test]
fn scan_counts_url_objects_at_any_depth_and_skips_non_urls() {
    let body = rw_parse(
        r#"{"a": {"inlineData": {"data": "http://x.example/1"}, "b": [{"inlineData": {"data": "https://x.example/1"}}]},
            "c": {"inlineData": {"data": "aGVsbG8="}}, "d": {"inlineData": "http://not-an-object"}}"#,
    );
    let scan = rust_sync_proxy::request_rewrite::scan_inline_data_urls(&body).unwrap();
    assert_eq!(scan.total_refs, 2);
    assert_eq!(scan.unique_urls, vec!["http://x.example/1".to_string(), "https://x.example/1".to_string()]);
}

#[test]
fn every_reference_finds_its_unique_url() {
    let body = rw_parse(
        r#"{"contents": [{"parts": [
            {"inlineData": {"data": "https://img.example/a.png"}},
            {"inlineData": {"data": "https://img.example/b.png"}},
            {"inlineData": {"data": "https://img.example/a.png"}}
        ]}]}"#,
    );
    let refs = rust_sync_proxy::request_scan::scan_request_image_urls(&body).unwrap();
    let unique = rust_sync_proxy::request_scan::unique_request_image_urls(&refs);
    let indices = rust_sync_proxy::request_scan::ref_url_indices(&refs, &unique);
    assert_eq!(indices, vec![Some(0), Some(1), Some(0)]);
    let other = vec!["https://img.example/b.png".to_string()];
    assert_eq!(rust_sync_proxy::request_scan::ref_url_indices(&refs, &other), vec![None, Some(0), None]);
}
