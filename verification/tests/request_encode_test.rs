use rust_sync_proxy::json::JsonValue;
use rust_sync_proxy::request_encode::{encode_request_body, EncodedPiece};
use serde_json::Value;

fn re_doc(v: &Value) -> JsonValue {
    match v {
        Value::Null => JsonValue::Null,
        Value::Bool(b) => JsonValue::Bool(*b),
        Value::Number(n) => JsonValue::Number(n.to_string()),
        Value::String(s) => JsonValue::Str(s.clone()),
        Value::Array(items) => JsonValue::Array(items.iter().map(re_doc).collect()),
        Value::Object(map) => {
            JsonValue::Object(map.iter().map(|(k, v)| (k.clone(), re_doc(v))).collect())
        }
    }
}

fn re_render(pieces: &[EncodedPiece], blobs: &[&str]) -> String {
    let mut out = String::new();
    for piece in pieces {
        match piece {
            EncodedPiece::Text(t) => out.push_str(t),
            EncodedPiece::Blob(i) => out.push_str(blobs[*i]),
        }
    }
    out
}

#[test]
fn request_encoding_replaces_pointed_inline_data_and_strips_output() {
    let body = re_doc(
        &serde_json::from_str::<Value>(
            r#"{"contents": [{"role": "user", "parts": [
                    {"text": "hi \"there\""},
                    {"inlineData": {"mimeType": "image/png", "data": "https://a.example/x.png"}}
                ]}],
                "output": "url",
                "generationConfig": {"imageConfig": {"output": "url", "aspectRatio": "1:1"}, "n": 1.5}}"#,
        )
        .unwrap(),
    );
    let replacements = vec![(
        "/contents/0/parts/1/inlineData".to_string(),
        "image/webp".to_string(),
    )];
    let pieces = encode_request_body(body, &replacements);
    let text = re_render(&pieces, &["QUJD"]);
    assert_eq!(
        text,
        r#"{"contents":[{"role":"user","parts":[{"text":"hi \"there\""},{"inlineData":{"mimeType":"image/webp","data":"QUJD"}}]}],"generationConfig":{"imageConfig":{"aspectRatio":"1:1"},"n":1.5}}"#
    );
    let reparsed: Value = serde_json::from_str(&text).unwrap();
    assert_eq!(reparsed["contents"][0]["parts"][1]["inlineData"]["data"], "QUJD");
}

#[test]
fn request_encoding_without_replacements_is_compact_json() {
    let body = re_doc(&serde_json::from_str::<Value>(r#"{"a": [1, {"b~/c": null}], "d": true}"#).unwrap());
    let pieces = encode_request_body(body, &[("/a/1/b~0~1c".to_string(), "image/png".to_string())]);
    assert_eq!(re_render(&pieces, &["X"]), r#"{"a":[1,{"b~/c":{"mimeType":"image/png","data":"X"}}],"d":true}"#);
    let body = re_doc(&serde_json::from_str::<Value>(r#"[]"#).unwrap());
    assert_eq!(re_render(&encode_request_body(body, &[]), &[]), "[]");
}
