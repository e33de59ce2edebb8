use rust_sync_proxy::aiapidev_task::{normalize_aiapidev_task_response_url, task_image_url};
use rust_sync_proxy::json::JsonValue;
use serde_json::Value;

fn at_doc(v: &Value) -> JsonValue {
    match v {
        Value::Null => JsonValue::Null,
        Value::Bool(b) => JsonValue::Bool(*b),
        Value::Number(n) => JsonValue::Number(n.to_string()),
        Value::String(s) => JsonValue::Str(s.clone()),
        Value::Array(items) => JsonValue::Array(items.iter().map(at_doc).collect()),
        Value::Object(map) => {
            JsonValue::Object(map.iter().map(|(k, v)| (k.clone(), at_doc(v))).collect())
        }
    }
}

fn at_value(v: &JsonValue) -> Value {
    match v {
        JsonValue::Null => Value::Null,
        JsonValue::Bool(b) => Value::Bool(*b),
        JsonValue::Number(n) => serde_json::from_str(n).unwrap(),
        JsonValue::Str(s) => Value::String(s.clone()),
        JsonValue::Array(items) => Value::Array(items.iter().map(at_value).collect()),
        JsonValue::Object(fields) => {
            Value::Object(fields.iter().map(|(k, v)| (k.clone(), at_value(v))).collect())
        }
    }
}

fn at_parse(text: &str) -> Value {
    serde_json::from_str(text).unwrap()
}

const SUCCEEDED_TASK: &str = r#"{
    "status": "succeeded",
    "result": {"items": [{"url": "https://pub.example.com/demo.png", "type": "image"}]}
}"#;

#[test]
fn aiapidev_task_response_url_mode_reuses_external_proxy_prefix() {
    let mut config = rust_sync_proxy::test_config();
    config.external_image_proxy_prefix = "https://proxy.example.com/fetch?url=".to_string();
    config.proxy_special_upstream_urls = true;

    let body = at_doc(&at_parse(SUCCEEDED_TASK));
    let output = at_value(&normalize_aiapidev_task_response_url(&body, &config).unwrap());

    assert_eq!(output["candidates"][0]["content"]["role"], "model");
    assert_eq!(
        output["candidates"][0]["content"]["parts"][0]["inlineData"],
        at_parse(
            r#"{"mimeType": "image/png",
                "data": "https://proxy.example.com/fetch?url=https%3A%2F%2Fpub.example.com%2Fdemo.png"}"#
        )
    );
    assert_eq!(
        output["usageMetadata"],
        at_parse(r#"{"candidatesTokenCount": 1024, "promptTokenCount": 1024, "totalTokenCount": 2048}"#)
    );
}

#[test]
fn aiapidev_task_response_url_mode_falls_back_to_public_base_url_proxy_path() {
    let mut config = rust_sync_proxy::test_config();
    config.public_base_url = "https://proxy.example.com/base/".to_string();
    config.proxy_special_upstream_urls = true;

    let body = at_doc(&at_parse(SUCCEEDED_TASK));
    let output = at_value(&normalize_aiapidev_task_response_url(&body, &config).unwrap());

    assert_eq!(
        output["candidates"][0]["content"]["parts"][0]["inlineData"],
        at_parse(
            r#"{"mimeType": "image/png",
                "data": "https://proxy.example.com/base/proxy/image?url=https%3A%2F%2Fpub.example.com%2Fdemo.png"}"#
        )
    );
}

#[test]
fn task_url_is_kept_as_is_without_special_proxying() {
    let config = rust_sync_proxy::test_config();
    let body = at_doc(&at_parse(SUCCEEDED_TASK));
    let output = at_value(&normalize_aiapidev_task_response_url(&body, &config).unwrap());
    assert_eq!(
        output["candidates"][0]["content"]["parts"][0]["inlineData"]["data"],
        "https://pub.example.com/demo.png"
    );
    assert_eq!(output["candidates"].as_array().unwrap().len(), 1);
}

#[test]
fn task_image_url_skips_blank_items() {
    let body = at_doc(&at_parse(
        r#"{"result": {"items": [{"url": "  "}, {"type": "image"}, {"url": "https://a.example/x.jpg"}, {"url": "https://b.example/y.png"}]}}"#,
    ));
    assert_eq!(task_image_url(&body), Some("https://a.example/x.jpg".to_string()));
}

#[test]
fn task_without_image_gives_no_response() {
    let config = rust_sync_proxy::test_config();
    let body = at_doc(&at_parse(r#"{"status": "succeeded", "result": {"items": []}}"#));
    assert!(normalize_aiapidev_task_response_url(&body, &config).is_none());
    let body = at_doc(&at_parse(r#"{"status": "succeeded"}"#));
    assert!(task_image_url(&body).is_none());
}
