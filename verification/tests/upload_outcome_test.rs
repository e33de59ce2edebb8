use rust_sync_proxy::upload::{kefan_upload_url, uguu_upload_url};

#[test]
fn uguu_answer_gives_first_file_url_or_failure() {
    let urls = vec!["https://n.uguu.se/a.png".to_string(), "https://n.uguu.se/b.png".to_string()];
    assert_eq!(uguu_upload_url(true, &urls, "{}"), Ok("https://n.uguu.se/a.png".to_string()));
    assert_eq!(
        uguu_upload_url(false, &urls, " {\"success\":false} "),
        Err("uguu upload failed: {\"success\":false}".to_string())
    );
    assert_eq!(uguu_upload_url(true, &[], "x"), Err("uguu upload failed: x".to_string()));
    assert_eq!(
        uguu_upload_url(true, &["  ".to_string()], "y"),
        Err("uguu upload failed: y".to_string())
    );
}

#[test]
fn kefan_answer_gives_data_or_failure() {
    assert_eq!(kefan_upload_url(true, "https://k/x.png", "{}"), Ok("https://k/x.png".to_string()));
    assert_eq!(kefan_upload_url(true, " ", "b"), Err("kefan upload failed: b".to_string()));
    assert_eq!(kefan_upload_url(false, "https://k/x.png", "c"), Err("kefan upload failed: c".to_string()));
}

#[test]
fn upload_fallback_stops_at_the_first_success_and_reports_the_last_error() {
    let targets = rust_sync_proxy::upload::upload_targets(rust_sync_proxy::upload::ImageHostMode::R2ThenLegacy);
    let ok = rust_sync_proxy::upload::UploadResult { url: "https://u/x.png".to_string(), provider: "legacy".to_string() };
    match rust_sync_proxy::upload::upload_fallback_step(&targets, 0, Err("r2 down".to_string())) {
        rust_sync_proxy::upload::UploadStep::Next(1) => {}
        _ => panic!("expected the next target"),
    }
    match rust_sync_proxy::upload::upload_fallback_step(&targets, 1, Ok(ok.clone())) {
        rust_sync_proxy::upload::UploadStep::Done(r) => assert_eq!(r, ok),
        _ => panic!("expected done"),
    }
    match rust_sync_proxy::upload::upload_fallback_step(&targets, 2, Err("kefan down".to_string())) {
        rust_sync_proxy::upload::UploadStep::Fail(e) => assert_eq!(e, "kefan down"),
        _ => panic!("expected failure"),
    }
}

#[test]
fn r2_signature_dates_and_host() {
    let (amz, stamp) = rust_sync_proxy::upload::amz_date_and_stamp(2026, 3, 7, 4, 5, 9);
    assert_eq!(amz, "20260307T040509Z");
    assert_eq!(stamp, "20260307");
    let (amz, _) = rust_sync_proxy::upload::amz_date_and_stamp(-12, 12, 31, 23, 59, 59);
    assert_eq!(amz, "-00121231T235959Z");
    assert_eq!(
        rust_sync_proxy::upload::r2_endpoint_host("https://acc.r2.cloudflarestorage.com/base"),
        Ok("acc.r2.cloudflarestorage.com".to_string())
    );
    assert!(rust_sync_proxy::upload::r2_endpoint_host("not a url").is_err());
}
