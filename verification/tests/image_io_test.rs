use std::io::Cursor;

use rust_sync_proxy::image_io::{check_fetch_target, is_forbidden_host, HostIp};
use rust_sync_proxy::image_io::{
    DEFAULT_JPEG_QUALITY, maybe_compress_png_bytes_with_options,
    maybe_compress_png_bytes_with_threshold,
};

fn sample_png() -> Vec<u8> {
    let image = image::RgbImage::from_fn(128, 128, |x, y| {
        image::Rgb([
            ((x * 31 + y * 17) % 255) as u8,
            ((x * 13 + y * 29) % 255) as u8,
            ((x * 7 + y * 47) % 255) as u8,
        ])
    });
    let mut png = Vec::new();
    image::DynamicImage::ImageRgb8(image)
        .write_to(&mut Cursor::new(&mut png), image::ImageFormat::Png)
        .unwrap();
    png
}

#[test]
fn large_png_can_be_reencoded_to_jpeg_when_compression_enabled() {
    let png = sample_png();
    let optimized = maybe_compress_png_bytes_with_threshold(&png, "image/png", true, 1).unwrap();

    assert_eq!(optimized.mime_type, "image/jpeg");
    assert!(optimized.bytes.starts_with(&[0xFF, 0xD8, 0xFF]));
}

#[test]
fn higher_jpeg_quality_produces_larger_reencoded_output() {
    let png = sample_png();
    let lower_quality =
        maybe_compress_png_bytes_with_options(&png, "image/png", true, 1, 90).unwrap();
    let default_quality =
        maybe_compress_png_bytes_with_options(&png, "image/png", true, 1, DEFAULT_JPEG_QUALITY)
            .unwrap();

    assert_eq!(lower_quality.mime_type, "image/jpeg");
    assert_eq!(default_quality.mime_type, "image/jpeg");
    assert!(default_quality.bytes.len() > lower_quality.bytes.len());
}

#[test]
fn sniff_image_mime_type_detects_known_formats() {
    let cases = [
        (&[137, 80, 78, 71, 13, 10, 26, 10][..], Some("image/png")),
        (&[0xFF, 0xD8, 0xFF, 0xE0][..], Some("image/jpeg")),
        (
            &[b'R', b'I', b'F', b'F', 1, 2, 3, 4, b'W', b'E', b'B', b'P'][..],
            Some("image/webp"),
        ),
        (&b"GIF89a"[..], Some("image/gif")),
        (&[1, 2, 3, 4][..], None),
    ];

    for (bytes, want) in cases {
        let got = rust_sync_proxy::image_io::sniff_image_mime_type(bytes);
        assert_eq!(got, want);
    }
}

#[test]
fn small_or_non_png_images_are_kept() {
    let png = sample_png();
    let kept = maybe_compress_png_bytes_with_threshold(&png, " Image/PNG ", true, usize::MAX).unwrap();
    assert_eq!(kept.mime_type, "image/png");
    assert_eq!(kept.bytes, png);
    let jpeg = maybe_compress_png_bytes_with_threshold(&[1, 2, 3], "image/jpeg", true, 1).unwrap();
    assert_eq!(jpeg.mime_type, "image/jpeg");
    assert_eq!(jpeg.bytes, vec![1, 2, 3]);
}

#[test]
fn oversized_images_are_refused_with_sizes() {
    let err = rust_sync_proxy::image_io::enforce_max_size(11, 10).unwrap_err();
    assert_eq!(err, "image too large: 11 > 10");
    assert!(rust_sync_proxy::image_io::enforce_max_size(10, 10).is_ok());
}

#[test]
fn fetch_url_host_accepts_only_http_urls_with_a_host() {
    assert_eq!(
        rust_sync_proxy::image_io::fetch_url_host("https://Img.Example.com/a.png?x=1"),
        Ok("img.example.com".to_string())
    );
    assert_eq!(
        rust_sync_proxy::image_io::fetch_url_host("ftp://img.example.com/a.png"),
        Err("invalid image url".to_string())
    );
    assert_eq!(
        rust_sync_proxy::image_io::fetch_url_host("data:image/png;base64,AAAA"),
        Err("invalid image url".to_string())
    );
    assert_eq!(
        rust_sync_proxy::image_io::fetch_url_host("not a url"),
        Err("relative URL without a base".to_string())
    );
}

#[test]
fn forbidden_hosts_are_localhost_and_private_addresses() {
    let cases = [
        ("LocalHost", HostIp::NotIp, true),
        ("img.example.com", HostIp::NotIp, false),
        ("10.1.2.3", HostIp::V4([10, 1, 2, 3]), true),
        ("172.16.0.1", HostIp::V4([172, 16, 0, 1]), true),
        ("172.31.255.255", HostIp::V4([172, 31, 255, 255]), true),
        ("172.32.0.1", HostIp::V4([172, 32, 0, 1]), false),
        ("192.168.1.1", HostIp::V4([192, 168, 1, 1]), true),
        ("127.0.0.1", HostIp::V4([127, 0, 0, 1]), true),
        ("169.254.1.1", HostIp::V4([169, 254, 1, 1]), true),
        ("0.0.0.0", HostIp::V4([0, 0, 0, 0]), true),
        ("8.8.8.8", HostIp::V4([8, 8, 8, 8]), false),
        ("::1", HostIp::V6([0, 0, 0, 0, 0, 0, 0, 1]), true),
        ("::", HostIp::V6([0; 8]), true),
        ("fd00::1", HostIp::V6([0xfd00, 0, 0, 0, 0, 0, 0, 1]), true),
        ("fe80::1", HostIp::V6([0xfe80, 0, 0, 0, 0, 0, 0, 1]), true),
        ("2001:db8::1", HostIp::V6([0x2001, 0xdb8, 0, 0, 0, 0, 0, 1]), false),
    ];
    for (host, ip, expected) in cases {
        assert_eq!(is_forbidden_host(host, &ip), expected, "{host}");
    }
}

#[test]
fn fetch_targets_are_checked_before_any_download() {
    let address_of = |text: String| {
        if text == "10.0.0.7" {
            HostIp::V4([10, 0, 0, 7])
        } else {
            HostIp::NotIp
        }
    };
    assert_eq!(check_fetch_target("https://img.example.com/a.png", false, address_of), Ok(()));
    assert_eq!(
        check_fetch_target("http://10.0.0.7/a.png", false, address_of),
        Err("forbidden target: 10.0.0.7".to_string())
    );
    assert_eq!(check_fetch_target("http://10.0.0.7/a.png", true, address_of), Ok(()));
    assert_eq!(
        check_fetch_target("http://localhost:8080/a.png", false, address_of),
        Err("forbidden target: localhost".to_string())
    );
    assert_eq!(
        check_fetch_target("file:///etc/passwd", true, address_of),
        Err("invalid image url".to_string())
    );
}
