use base64::Engine;
use rust_sync_proxy::json::JsonValue;
use serde_json::Value;

fn rr_doc(v: &Value) -> JsonValue {
    match v {
        Value::Null => JsonValue::Null,
        Value::Bool(b) => JsonValue::Bool(*b),
        Value::Number(n) => JsonValue::Number(n.to_string()),
        Value::String(s) => JsonValue::Str(s.clone()),
        Value::Array(items) => JsonValue::Array(items.iter().map(rr_doc).collect()),
        Value::Object(map) => {
            JsonValue::Object(map.iter().map(|(k, v)| (k.clone(), rr_doc(v))).collect())
        }
    }
}

fn rr_value(v: &JsonValue) -> Value {
    match v {
        JsonValue::Null => Value::Null,
        JsonValue::Bool(b) => Value::Bool(*b),
        JsonValue::Number(n) => serde_json::from_str(n).unwrap(),
        JsonValue::Str(s) => Value::String(s.clone()),
        JsonValue::Array(items) => Value::Array(items.iter().map(rr_value).collect()),
        JsonValue::Object(fields) => {
            Value::Object(fields.iter().map(|(k, v)| (k.clone(), rr_value(v))).collect())
        }
    }
}

#[test]
fn keeps_only_largest_inline_image_per_candidate() {
    let input = rr_doc(
        &serde_json::from_str::<Value>(
            r#"{"candidates": [{"content": {"parts": [
                {"inlineData": {"mimeType": "image/png", "data": "aaaa"}},
                {"inlineData": {"mimeType": "image/png", "data": "aaaaaaaa"}}
            ]}}]}"#,
        )
        .unwrap(),
    );

    let output = rr_value(&rust_sync_proxy::response_rewrite::keep_largest_inline_image(input));
    let parts = output["candidates"][0]["content"]["parts"]
        .as_array()
        .unwrap();
    assert_eq!(parts.len(), 1);
    assert_eq!(parts[0]["inlineData"]["data"], "aaaaaaaa");
}

#[test]
fn thought_signatures_are_removed_at_every_depth() {
    let mut body = rr_doc(
        &serde_json::from_str::<Value>(
            r#"{"thoughtSignature": "x", "candidates": [{"content": {"parts": [{"text": "hi", "thoughtSignature": "y"}]}}]}"#,
        )
        .unwrap(),
    );
    rust_sync_proxy::response_rewrite::remove_thought_signatures(&mut body);
    let text = serde_json::to_string(&rr_value(&body)).unwrap();
    assert!(!text.contains("thoughtSignature"));
    assert!(text.contains("\"text\":\"hi\""));
}

#[test]
fn optimization_is_a_no_op_when_disabled() {
    let original = r#"{"candidates": [{"content": {"parts": [{"inlineData": {"mimeType": " IMAGE/PNG ", "data": "aaaa"}}]}}]}"#;
    let mut body = rr_doc(&serde_json::from_str::<Value>(original).unwrap());
    rust_sync_proxy::response_materialize::optimize_inline_data_images_with_options(
        &mut body, false, 1, 90,
    )
    .unwrap();
    assert_eq!(rr_value(&body), serde_json::from_str::<Value>(original).unwrap());
}

#[test]
fn optimize_inline_data_images_reencodes_large_png_base64_entries() {
    let image = image::RgbImage::from_fn(128, 128, |x, y| {
        image::Rgb([
            ((x * 31 + y * 17) % 255) as u8,
            ((x * 13 + y * 29) % 255) as u8,
            ((x * 7 + y * 47) % 255) as u8,
        ])
    });
    let mut png = Vec::new();
    image::DynamicImage::ImageRgb8(image)
        .write_to(&mut std::io::Cursor::new(&mut png), image::ImageFormat::Png)
        .unwrap();
    let png_base64 = base64::engine::general_purpose::STANDARD.encode(&png);
    let mut body = JsonValue::Object(vec![(
        "candidates".to_string(),
        JsonValue::Array(vec![JsonValue::Object(vec![(
            "content".to_string(),
            JsonValue::Object(vec![(
                "parts".to_string(),
                JsonValue::Array(vec![JsonValue::Object(vec![(
                    "inlineData".to_string(),
                    JsonValue::Object(vec![
                        ("mimeType".to_string(), JsonValue::Str("image/png".to_string())),
                        ("data".to_string(), JsonValue::Str(png_base64.clone())),
                    ]),
                )])]),
            )]),
        )])]),
    )]);

    rust_sync_proxy::response_materialize::optimize_inline_data_images_with_options(
        &mut body,
        true,
        1,
        rust_sync_proxy::image_io::DEFAULT_JPEG_QUALITY,
    )
    .unwrap();

    let output = rr_value(&body);
    let inline_data = &output["candidates"][0]["content"]["parts"][0]["inlineData"];
    assert_eq!(inline_data["mimeType"], "image/jpeg");
    assert_ne!(inline_data["data"], png_base64);
}

#[test]
fn removing_thought_signatures_again_changes_nothing() {
    let mut body = rr_doc(
        &serde_json::from_str::<Value>(
            r#"{"thoughtSignature": "x", "a": [{"thoughtSignature": "y", "b": 1}], "c": {"d": {"thoughtSignature": "z"}}}"#,
        )
        .unwrap(),
    );
    rust_sync_proxy::response_rewrite::remove_thought_signatures(&mut body);
    let once = rr_value(&body);
    rust_sync_proxy::response_rewrite::remove_thought_signatures(&mut body);
    assert_eq!(rr_value(&body), once);
    assert_eq!(once, serde_json::from_str::<Value>(r#"{"a": [{"b": 1}], "c": {"d": {}}}"#).unwrap());
}

#[test]
fn the_first_of_equally_large_images_is_kept_and_urls_are_not_candidates() {
    let input = rr_doc(
        &serde_json::from_str::<Value>(
            r#"{"candidates": [{"content": {"parts": [
                {"text": "t"},
                {"inlineData": {"data": "https://x.example/very-long-url.png"}},
                {"inlineData": {"data": "bbbb", "mimeType": "image/png"}},
                {"inlineData": {"data": "cccc", "mimeType": "image/png"}}
            ]}}, {"content": {"parts": [{"inlineData": {"data": ""}}]}}]}"#,
        )
        .unwrap(),
    );
    let output = rr_value(&rust_sync_proxy::response_rewrite::keep_largest_inline_image(input));
    let expected = serde_json::from_str::<Value>(
        r#"{"candidates": [{"content": {"parts": [
            {"text": "t"},
            {"inlineData": {"data": "bbbb", "mimeType": "image/png"}}
        ]}}, {"content": {"parts": [{"inlineData": {"data": ""}}]}}]}"#,
    )
    .unwrap();
    assert_eq!(output, expected);
}
