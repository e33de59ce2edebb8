use rust_sync_proxy::admin::{
    AdminLogEntry, AdminState, AdminStats, apply_admin_stats, extract_finish_reason,
    maybe_sanitize_json_for_log, sanitize_json_for_log, truncate_for_admin_log,
};
use base64::Engine;
use rust_sync_proxy::json::JsonValue;
use serde_json::Value;

fn admin_doc(v: &Value) -> JsonValue {
    match v {
        Value::Null => JsonValue::Null,
        Value::Bool(b) => JsonValue::Bool(*b),
        Value::Number(n) => JsonValue::Number(n.to_string()),
        Value::String(s) => JsonValue::Str(s.clone()),
        Value::Array(items) => JsonValue::Array(items.iter().map(admin_doc).collect()),
        Value::Object(map) => {
            JsonValue::Object(map.iter().map(|(k, v)| (k.clone(), admin_doc(v))).collect())
        }
    }
}

#[test]
fn admin_log_omits_base64_payloads() {
    let sanitized = sanitize_json_for_log(br#"{"inlineData":{"data":"QUJDREVGRw=="}}"#);
    assert!(sanitized.pretty.contains("[base64 omitted len=12]"));
}

#[test]
fn admin_log_collects_proxy_and_http_image_urls() {
    let sanitized = sanitize_json_for_log(
        br#"{"parts":[{"inlineData":{"data":"https://img.example/a.png"}},{"inline_data":{"data":"/proxy/image?u=abc"}}]}"#,
    );
    assert_eq!(
        sanitized.image_urls,
        vec![
            "https://img.example/a.png".to_string(),
            "/proxy/image?u=abc".to_string()
        ]
    );
}

#[test]
fn maybe_sanitize_json_for_log_skips_when_admin_is_disabled() {
    let sanitized = maybe_sanitize_json_for_log(br#"{"inlineData":{"data":"AQID"}}"#, false);
    assert!(sanitized.is_none());
}

#[test]
fn extract_finish_reason_returns_first_candidate_reason() {
    let body: Value = serde_json::from_str(
        r#"{"candidates":[{"finishReason":"STOP"},{"finishReason":"OTHER"}]}"#,
    )
    .unwrap();
    assert_eq!(
        extract_finish_reason(&admin_doc(&body)).as_deref(),
        Some("STOP")
    );
}

#[test]
fn admin_stats_track_model_requests() {
    let mut stats = AdminStats::new();
    apply_admin_stats(
        &mut stats,
        &AdminLogEntry {
            path: "/v1beta/models/demo:generateContent".to_string(),
            status_code: 200,
            duration_ms: 12,
            ..Default::default()
        },
    );
    assert_eq!(stats.total_requests, 1);
    assert_eq!(stats.error_requests, 0);
    assert_eq!(stats.total_duration_ms, 12);
    apply_admin_stats(
        &mut stats,
        &AdminLogEntry {
            status_code: 502,
            duration_ms: 3,
            ..Default::default()
        },
    );
    assert_eq!(stats.total_requests, 2);
    assert_eq!(stats.error_requests, 1);
    assert_eq!(stats.total_duration_ms, 15);
}

#[test]
fn non_json_bodies_are_kept_as_text_and_truncated() {
    let sanitized = sanitize_json_for_log(b"plain text");
    assert_eq!(sanitized.pretty, "plain text");
    assert!(sanitized.image_urls.is_empty());
    assert_eq!(sanitize_json_for_log(b"").pretty, "");
    assert_eq!(truncate_for_admin_log("héllo", 3), "hé\n...[truncated]");
    assert_eq!(truncate_for_admin_log("héllo", 2), "h\n...[truncated]");
    assert_eq!(truncate_for_admin_log("héllo", 6), "héllo");
}

#[test]
fn repeated_image_urls_are_listed_once() {
    let sanitized = sanitize_json_for_log(
        br#"[{"inlineData":{"data":" https://a.example/x.png "}},{"inlineData":{"data":"https://a.example/x.png"}}]"#,
    );
    assert_eq!(sanitized.image_urls, vec!["https://a.example/x.png".to_string()]);
}

#[test]
fn log_keeps_newest_first_and_at_most_capacity() {
    let mut state = AdminState::new("pw".to_string());
    for i in 0..105 {
        state.record(AdminLogEntry {
            duration_ms: i,
            ..Default::default()
        });
    }
    let logs = state.snapshot_logs();
    assert_eq!(logs.len(), rust_sync_proxy::admin::ADMIN_LOG_CAPACITY);
    assert_eq!(logs[0].id, 105);
    assert_eq!(logs[0].duration_ms, 104);
    assert_eq!(logs[99].id, 6);
}

#[test]
fn basic_auth_checks_the_password_after_the_user() {
    let state = AdminState::new("pw".to_string());
    let good = format!(
        "Basic {}",
        base64::engine::general_purpose::STANDARD.encode("user:pw")
    );
    let bad = format!(
        "Basic {}",
        base64::engine::general_purpose::STANDARD.encode("user:nope")
    );
    assert!(state.check_basic_auth(Some(good.as_str())));
    assert!(!state.check_basic_auth(Some(bad.as_str())));
    assert!(!state.check_basic_auth(Some("Bearer x")));
    assert!(!state.check_basic_auth(None));
    let disabled = AdminState::new("  ".to_string());
    assert!(!disabled.enabled());
    let blank = format!(
        "Basic {}",
        base64::engine::general_purpose::STANDARD.encode("user:  ")
    );
    assert!(!disabled.check_basic_auth(Some(blank.as_str())));
}
