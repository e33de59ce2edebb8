use rust_sync_proxy::json::JsonValue;
use rust_sync_proxy::openai_image::{
    UploadedImage, build_response_payload, extract_created_timestamp, normalize_request_body,
};
use serde_json::Value;

fn oi_doc(text: &str) -> JsonValue {
    oi_from(&serde_json::from_str::<Value>(text).unwrap())
}

fn oi_from(v: &Value) -> JsonValue {
    match v {
        Value::Null => JsonValue::Null,
        Value::Bool(b) => JsonValue::Bool(*b),
        Value::Number(n) => JsonValue::Number(n.to_string()),
        Value::String(s) => JsonValue::Str(s.clone()),
        Value::Array(items) => JsonValue::Array(items.iter().map(oi_from).collect()),
        Value::Object(map) => {
            JsonValue::Object(map.iter().map(|(k, v)| (k.clone(), oi_from(v))).collect())
        }
    }
}

fn oi_value(v: &JsonValue) -> Value {
    match v {
        JsonValue::Null => Value::Null,
        JsonValue::Bool(b) => Value::Bool(*b),
        JsonValue::Number(n) => serde_json::from_str(n).unwrap(),
        JsonValue::Str(s) => Value::String(s.clone()),
        JsonValue::Array(items) => Value::Array(items.iter().map(oi_value).collect()),
        JsonValue::Object(fields) => {
            Value::Object(fields.iter().map(|(k, v)| (k.clone(), oi_value(v))).collect())
        }
    }
}

#[test]
fn normalize_openai_image_request_supports_all_aliases() {
    let cases = [
        (
            r#"{"model": "gpt-image-2", "prompt": "draw cat", "image": ["https://img.example/a.png"]}"#,
            r#"["https://img.example/a.png"]"#,
        ),
        (
            r#"{"model": "gpt-image-2", "prompt": "draw cat", "images": ["https://img.example/b.png"]}"#,
            r#"["https://img.example/b.png"]"#,
        ),
        (
            r#"{"model": "gpt-image-2", "prompt": "draw cat", "reference_images": ["https://img.example/c.png"]}"#,
            r#"["https://img.example/c.png"]"#,
        ),
    ];

    for (body, want_images) in cases {
        let normalized = oi_value(&normalize_request_body(oi_doc(body)).unwrap());
        assert_eq!(
            normalized["reference_images"],
            serde_json::from_str::<Value>(want_images).unwrap()
        );
        assert_eq!(normalized["response_format"], "b64_json");
        assert!(normalized.get("image").is_none());
        assert!(normalized.get("images").is_none());
    }
}

#[test]
fn build_openai_image_response_falls_back_created_timestamp() {
    let body = oi_doc(r#"{"data": [{"b64_json": "iVBORw0KGgo="}]}"#);

    let response = oi_value(
        &build_response_payload(
            body,
            &[UploadedImage {
                url: "https://img.example/final.png".to_string(),
            }],
            1_776_663_103,
        )
        .unwrap(),
    );

    assert_eq!(response["created"], 1_776_663_103);
    assert_eq!(response["data"][0]["url"], "https://img.example/final.png");
    assert_eq!(response["usage"]["total_tokens"], 2048);
}

#[test]
fn build_openai_image_response_preserves_upstream_created_timestamp() {
    let body = oi_doc(r#"{"created": 1776663555, "data": [{"b64_json": "iVBORw0KGgo="}]}"#);

    let response = oi_value(
        &build_response_payload(
            body,
            &[UploadedImage {
                url: "https://img.example/final.png".to_string(),
            }],
            1_776_663_103,
        )
        .unwrap(),
    );

    assert_eq!(response["created"], 1_776_663_555);
}

#[test]
fn created_timestamp_is_read_from_task_times() {
    let body = oi_doc(r#"{"submittedTime": " 2026-04-20 08:00:00 "}"#);
    assert_eq!(extract_created_timestamp(&body, 7), 1_776_672_000);
    let body = oi_doc(r#"{"finishedTime": "garbage", "createTime": "1970-01-01 00:01:00"}"#);
    assert_eq!(extract_created_timestamp(&body, 7), 60);
    assert_eq!(extract_created_timestamp(&oi_doc("{}"), -5), -5);
}

#[test]
fn normalize_refuses_other_response_formats_and_bad_references() {
    let err = normalize_request_body(oi_doc(r#"{"response_format": "b64_json"}"#)).unwrap_err();
    assert_eq!(err, "response_format 只支持 url，请调整后再试");
    let err = normalize_request_body(oi_doc(r#"{"images": "x"}"#)).unwrap_err();
    assert_eq!(err, "images 必须是数组，请检查后再试");
    let err = normalize_request_body(oi_doc(r#"{"image": [1]}"#)).unwrap_err();
    assert_eq!(err, "image 中的图片地址必须是字符串");
    let err = normalize_request_body(oi_doc(r#"{"image": ["ftp://x/y.png"]}"#)).unwrap_err();
    assert_eq!(err, "参考图片 URL 必须使用 http 或 https");
    let err = normalize_request_body(oi_doc(r#"{"image": ["not a url"]}"#)).unwrap_err();
    assert_eq!(err, "参考图片必须是完整 URL");
    let err = normalize_request_body(oi_doc("[1]")).unwrap_err();
    assert_eq!(err, "请求内容必须是 JSON 对象，请检查后再试");
}

#[test]
fn normalize_gathers_every_alias_in_order() {
    let normalized = oi_value(
        &normalize_request_body(oi_doc(
            r#"{"image": ["https://x.example/3.png"], "prompt": "p", "images": ["https://x.example/2.png"], "reference_images": ["https://x.example/1.png"], "response_format": "URL"}"#,
        ))
        .unwrap(),
    );
    assert_eq!(
        normalized["reference_images"],
        serde_json::from_str::<Value>(
            r#"["https://x.example/1.png","https://x.example/2.png","https://x.example/3.png"]"#
        )
        .unwrap()
    );
    assert_eq!(normalized["response_format"], "b64_json");
}
