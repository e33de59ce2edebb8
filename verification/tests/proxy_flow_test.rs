use std::time::Duration;

use rust_sync_proxy::json::JsonValue;
use rust_sync_proxy::proxy_flow::{
    AIAPIDEV_MAX_POLL_TIME_SECS, PollAction, PollOutcome, StructuredProxyError,
    aiapidev_poll_step, aiapidev_task_failure, annotate_upstream_error_json,
    build_upstream_url, classify_transport_error, created_request_id,
    extract_openai_b64_json_entries, failure_response, filter_query_without_output,
    generate_content_target, get_output_mode, is_slow_request, proxy_error_json,
    query_contains_output_url, build_request_cache_tracking,
};
use rust_sync_proxy::admin::AdminStats;
use rust_sync_proxy::response_rewrite::OutputMode;
use serde_json::Value;

fn pf_doc(text: &str) -> JsonValue {
    pf_from(&serde_json::from_str::<Value>(text).unwrap())
}

fn pf_from(v: &Value) -> JsonValue {
    match v {
        Value::Null => JsonValue::Null,
        Value::Bool(b) => JsonValue::Bool(*b),
        Value::Number(n) => JsonValue::Number(n.to_string()),
        Value::String(s) => JsonValue::Str(s.clone()),
        Value::Array(items) => JsonValue::Array(items.iter().map(pf_from).collect()),
        Value::Object(map) => {
            JsonValue::Object(map.iter().map(|(k, v)| (k.clone(), pf_from(v))).collect())
        }
    }
}

fn pf_value(v: &JsonValue) -> Value {
    match v {
        JsonValue::Null => Value::Null,
        JsonValue::Bool(b) => Value::Bool(*b),
        JsonValue::Number(n) => serde_json::from_str(n).unwrap(),
        JsonValue::Str(s) => Value::String(s.clone()),
        JsonValue::Array(items) => Value::Array(items.iter().map(pf_value).collect()),
        JsonValue::Object(fields) => {
            Value::Object(fields.iter().map(|(k, v)| (k.clone(), pf_value(v))).collect())
        }
    }
}

#[test]
fn aiapidev_poll_timeout_is_450_seconds() {
    assert_eq!(
        Duration::from_secs(AIAPIDEV_MAX_POLL_TIME_SECS),
        Duration::from_secs(450)
    );
}

#[test]
fn proxy_error_json_contains_structured_fields() {
    let body = pf_value(&proxy_error_json(
        502,
        "failed to decode upstream response body",
        "proxy",
        "decode_upstream_body",
        "body_decode_failed",
    ));

    assert_eq!(body["error"]["code"], 502);
    assert_eq!(
        body["error"]["message"],
        "failed to decode upstream response body"
    );
    assert_eq!(body["error"]["source"], "proxy");
    assert_eq!(body["error"]["stage"], "decode_upstream_body");
    assert_eq!(body["error"]["kind"], "body_decode_failed");
}

#[test]
fn output_mode_follows_query_body_and_image_config() {
    let empty = pf_doc("{}");
    assert_eq!(get_output_mode(Some("output=URL"), &empty), OutputMode::Url);
    assert_eq!(get_output_mode(Some("output=base64"), &empty), OutputMode::Base64);
    assert_eq!(get_output_mode(None, &pf_doc(r#"{"output": " url "}"#)), OutputMode::Url);
    assert_eq!(
        get_output_mode(None, &pf_doc(r#"{"generation_config": {"image_config": {"output": "Url"}}}"#)),
        OutputMode::Url
    );
    assert_eq!(get_output_mode(None, &empty), OutputMode::Base64);
    assert!(query_contains_output_url(Some("a=1&output=%20url")));
    assert!(!query_contains_output_url(Some("a=1")));
}

#[test]
fn upstream_query_drops_output() {
    assert_eq!(
        filter_query_without_output(Some("output=url&alt=sse&key=a b")),
        Some("alt=sse&key=a+b".to_string())
    );
    assert_eq!(filter_query_without_output(Some("output=url")), None);
    assert_eq!(filter_query_without_output(None), None);
    assert_eq!(
        build_upstream_url("https://up.example/base?x=1", "/v1beta/models/m:generateContent", Some("output=url&alt=sse")).unwrap(),
        "https://up.example/v1beta/models/m:generateContent?alt=sse"
    );
    assert!(build_upstream_url("not a url", "/p", None).is_err());
}

#[test]
fn transport_failures_are_classified() {
    let e = classify_transport_error(false, true, false, true, "refused".to_string());
    assert_eq!(e.message, "failed to connect to upstream");
    assert_eq!(e.stage, "send_upstream_request");
    assert_eq!(e.kind, "upstream_connect_failed");
    assert_eq!(e.detail, "refused");
    let e = classify_transport_error(false, false, false, false, String::new());
    assert_eq!(e.kind, "upstream_transport_error");
}

#[test]
fn failed_forward_is_reported_by_class_or_by_text() {
    let mut entry = rust_sync_proxy::admin::AdminLogEntry::default();
    let s = StructuredProxyError::new("m", "st", "k", "d".to_string());
    let body = pf_value(&failure_response(&mut entry, true, Some(&s), "text"));
    assert_eq!(body["error"]["kind"], "k");
    assert_eq!(entry.error_source, "proxy");
    assert_eq!(entry.error_detail, "d");
    let mut entry = rust_sync_proxy::admin::AdminLogEntry::default();
    let body = pf_value(&failure_response(&mut entry, false, Some(&s), "text"));
    assert_eq!(body["error"]["message"], "text");
    assert_eq!(body["error"]["code"], 502);
    assert_eq!(entry.error_source, "");
}

#[test]
fn upstream_errors_are_annotated_without_overwriting() {
    let out = annotate_upstream_error_json(429, br#"{"error":{"message":"rate limited","kind":"mine"}}"#).unwrap();
    let v: Value = serde_json::from_str(&out).unwrap();
    assert_eq!(v["error"]["code"], 429);
    assert_eq!(v["error"]["source"], "upstream");
    assert_eq!(v["error"]["stage"], "upstream_response");
    assert_eq!(v["error"]["kind"], "mine");
    assert_eq!(v["error"]["message"], "rate limited");
    assert!(annotate_upstream_error_json(429, b"oops").is_none());
    assert!(annotate_upstream_error_json(429, br#"{"error":"x"}"#).is_none());
}

#[test]
fn openai_b64_entries_need_data_items() {
    let ok = extract_openai_b64_json_entries(&pf_doc(r#"{"data":[{"b64_json":"QQ=="},{"b64_json":"Qg=="}]}"#)).unwrap();
    assert_eq!(ok, vec!["QQ==".to_string(), "Qg==".to_string()]);
    let e = extract_openai_b64_json_entries(&pf_doc(r#"{"data":[]}"#)).unwrap_err();
    assert_eq!(e.detail, "upstream response data array is empty");
    let e = extract_openai_b64_json_entries(&pf_doc(r#"{}"#)).unwrap_err();
    assert_eq!(e.kind, "missing_data");
    let e = extract_openai_b64_json_entries(&pf_doc(r#"{"data":[{"b64_json":"QQ=="},{"b64_json":"  "}]}"#)).unwrap_err();
    assert_eq!(e.kind, "missing_b64_json");
}

#[test]
fn polling_gives_up_after_five_consecutive_failures() {
    let mut failures = 0usize;
    let mut actions = Vec::new();
    for _ in 0..5 {
        let (f, a) = aiapidev_poll_step(failures, &PollOutcome::HttpFailed { code: 503 }, false);
        failures = f;
        actions.push(a);
        if a != PollAction::Retry {
            break;
        }
    }
    assert_eq!(actions.len(), 5);
    assert_eq!(actions[4], PollAction::ReturnUpstreamResponse);
    let (f, a) = aiapidev_poll_step(3, &PollOutcome::Task { status: "running".to_string() }, false);
    assert_eq!((f, a), (0, PollAction::Retry));
    let (_, a) = aiapidev_poll_step(0, &PollOutcome::Task { status: "succeeded".to_string() }, true);
    assert_eq!(a, PollAction::Finished);
    let (_, a) = aiapidev_poll_step(0, &PollOutcome::SendFailed, true);
    assert_eq!(a, PollAction::TimedOut);
    let (_, a) = aiapidev_poll_step(0, &PollOutcome::HttpFailed { code: 404 }, false);
    assert_eq!(a, PollAction::ReturnUpstreamResponse);
    let (_, a) = aiapidev_poll_step(4, &PollOutcome::SendFailed, false);
    assert_eq!(a, PollAction::FailWithSendError);
}

#[test]
fn finished_tasks_report_their_failure() {
    assert_eq!(aiapidev_task_failure(&pf_doc(r#"{"status":"SUCCEEDED"}"#)), None);
    assert_eq!(
        aiapidev_task_failure(&pf_doc(r#"{"status":"failed","errorMessage":" ","errorCode":"E1"}"#)),
        Some("E1".to_string())
    );
    assert_eq!(
        aiapidev_task_failure(&pf_doc(r#"{"status":"failed"}"#)),
        Some("aiapidev task failed".to_string())
    );
    assert_eq!(created_request_id(&pf_doc(r#"{"requestId":"req_1"}"#)), Some("req_1".to_string()));
    assert_eq!(created_request_id(&pf_doc(r#"{"requestId":"  "}"#)), None);
}

#[test]
fn only_generate_content_is_forwarded() {
    assert_eq!(
        generate_content_target("demo:generateContent"),
        Some("/v1beta/models/demo:generateContent".to_string())
    );
    assert_eq!(generate_content_target("demo:streamGenerateContent?x"), None);
}

#[test]
fn slow_requests_are_those_at_or_over_the_threshold() {
    assert!(is_slow_request(false, 100, 100));
    assert!(!is_slow_request(false, 100, 99));
    assert!(!is_slow_request(true, 0, 1_000_000));
}

#[test]
fn request_cache_tracking_records_per_request_cache_hits() {
    let mut stats = AdminStats::new();
    let mut tracking = build_request_cache_tracking();

    for (url, from_cache) in [
        ("https://img.example/first.png", false),
        ("https://img.example/first.png", true),
        ("https://img.example/second.png", true),
    ] {
        if tracking.observe(true, url, from_cache) {
            stats.record_cache_hit();
        }
    }

    assert_eq!(stats.cache_hits, 2);
    assert_eq!(
        tracking.hit_urls,
        vec![
            "https://img.example/first.png".to_string(),
            "https://img.example/second.png".to_string()
        ]
    );
}

#[test]
fn request_cache_tracking_ignores_hits_without_statistics() {
    let mut tracking = build_request_cache_tracking();
    assert!(!tracking.observe(false, "https://img.example/first.png", true));
    assert!(tracking.hit_urls.is_empty());
}

#[test]
fn forwarded_requests_carry_the_key_twice_and_the_body_length() {
    let headers = rust_sync_proxy::proxy_flow::upstream_request_headers(42, "k-1");
    assert_eq!(
        headers,
        vec![
            ("content-length".to_string(), "42".to_string()),
            ("x-goog-api-key".to_string(), "k-1".to_string()),
            ("authorization".to_string(), "Bearer k-1".to_string()),
        ]
    );
}
