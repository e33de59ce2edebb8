use rust_sync_proxy::json::JsonValue;

#[test]
fn rewrites_sse_data_chunks_without_buffering_whole_stream() -> Result<(), String> {
    let input = "event: message\n\
data: {\"candidates\":[{\"content\":{\"parts\":[{\"inlineData\":{\"mimeType\":\"image/png\",\"data\":\"aaaa\"}},{\"inlineData\":{\"mimeType\":\"image/png\",\"data\":\"aaaaaaaa\"}}]}}]}\n\
\n\
data: [DONE]\n";

    let output = rust_sync_proxy::stream_rewrite::rewrite_sse_text_with(input, |value| {
        Ok(rust_sync_proxy::response_rewrite::keep_largest_inline_image(value))
    })?;

    assert!(output.contains("event: message\n"));
    assert!(output.contains("data: [DONE]\n"));
    assert!(output.contains("\"data\":\"aaaaaaaa\""));
    assert!(!output.contains("\"data\":\"aaaa\""));
    Ok(())
}

#[test]
fn preserves_non_json_sse_data_lines() -> Result<(), String> {
    let input = "data: not-json\n";
    let output = rust_sync_proxy::stream_rewrite::rewrite_sse_text_with(input, |value| {
        Ok(JsonValue::Object(vec![("wrapped".to_string(), value)]))
    })?;
    assert_eq!(output, input);
    Ok(())
}

#[test]
fn rewriter_errors_stop_the_stream() {
    let err = rust_sync_proxy::stream_rewrite::rewrite_sse_text_with("data: {}\r\n", |_| {
        Err("nope".to_string())
    })
    .unwrap_err();
    assert_eq!(err, "nope");
}

#[test]
fn data_lines_keep_their_line_ending() {
    let out = rust_sync_proxy::stream_rewrite::rewrite_sse_text_with("data:data: [1, 2]\r\nx", |v| {
        Ok(v)
    })
    .unwrap();
    assert_eq!(out, "data: [1,2]\r\nx");
}

#[test]
fn rewriter_failing_only_on_null_leaves_other_streams_whole() {
    let reject_null = |v: JsonValue| match v {
        JsonValue::Null => Err("null".to_string()),
        other => Ok(other),
    };
    let out = rust_sync_proxy::stream_rewrite::rewrite_sse_text_with(
        "event: x\ndata: {\"a\": 1}\ndata: [DONE]\n",
        reject_null,
    )
    .unwrap();
    assert_eq!(out, "event: x\ndata: {\"a\":1}\ndata: [DONE]\n");
    let err = rust_sync_proxy::stream_rewrite::rewrite_sse_text_with(
        "data: 1\ndata: null\ndata: oops\n",
        reject_null,
    )
    .unwrap_err();
    assert_eq!(err, "null");
}

#[test]
fn the_rewriter_may_keep_state_and_is_called_once_per_data_document() {
    let mut calls = 0usize;
    let out = rust_sync_proxy::stream_rewrite::rewrite_sse_text_with(
        "data: 1\nx\ndata: [DONE]\ndata: 2\ndata: \n",
        |v| {
            calls += 1;
            Ok(v)
        },
    )
    .unwrap();
    assert_eq!(out, "data: 1\nx\ndata: [DONE]\ndata: 2\ndata: \n");
    assert_eq!(calls, 2);
}
