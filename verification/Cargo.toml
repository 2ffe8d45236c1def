[package]
name = "device_cfg"
version = "0.1.0"
edition = "2021"
publish = false

[dependencies]
semver = "1"
mime_guess = "2"
self_update = { version = "0.42", default-features = false, features = ["archive-tar", "archive-zip", "compression-flate2", "compression-zip-deflate", "rustls"] }
serde = { version = "1", features = ["derive"] }
serde_json = "1"
axum = { version = "0.8", features = ["ws"] }
tokio = { version = "1", features = ["full"] }
tower-http = { version = "0.6", features = ["cors"] }
reqwest = { version = "0.12", default-features = false, features = ["blocking", "rustls-tls"] }
tempfile = "3"
include_dir = "0.7"
futures-util = "0.3"
webpki-root-certs = "*"
