use rust_sync_proxy::request_scan::{unique_request_image_urls, RequestImageRef};

#[test]
fn request_materialize_uses_20mib_request_limit() {
    assert_eq!(
        rust_sync_proxy::image_io::REQUEST_MAX_IMAGE_BYTES,
        20 * 1024 * 1024
    );
}

#[test]
fn request_images_are_downloaded_once_per_distinct_url() {
    let r = |pointer: &str, url: &str| RequestImageRef { json_pointer: pointer.to_string(), url: url.to_string() };
    let refs = vec![
        r("/contents/0/parts/0/inlineData", "https://a.example/1.png"),
        r("/contents/0/parts/1/inlineData", "https://b.example/2.png"),
        r("/contents/1/parts/0/inlineData", "https://a.example/1.png"),
    ];
    assert_eq!(
        unique_request_image_urls(&refs),
        vec!["https://a.example/1.png".to_string(), "https://b.example/2.png".to_string()]
    );
}
