[package]
name = "rust-sync-proxy"
version = "0.1.0"
edition = "2021"
publish = false

[dependencies]
anyhow = "1"
axum = "0.8"
base64 = "0.22"
bytes = "1"
hex = "0.4"
hmac = "0.12"
image = { version = "0.25", default-features = false, features = ["png", "webp"] }
jpeg-encoder = "0.6"
lru = "0.12"
rand = "0.9"
reqwest = { version = "0.12", default-features = false, features = ["json", "stream", "multipart", "rustls-tls"] }
serde = { version = "1", features = ["derive"] }
serde_json = { version = "1", features = ["preserve_order"] }
sha2 = "0.10"
tikv-jemallocator = "0.6"
time = { version = "0.3", features = ["formatting", "parsing", "macros"] }
tokio = { version = "1", features = ["full"] }
tokio-util = { version = "0.7", features = ["io"] }
tracing = "0.1"
tracing-subscriber = "0.3"
url = "2"
