[package]
name = "cdn-seeder"
version = "0.1.0"
edition = "2021"
publish = false

[dependencies]
async-trait = "0.1"
bytes = "1"
fx-callback = "*"
fx-torrent = "0.9"
igd = { version = "0.12", features = ["aio"] }
reqwest = { version = "0.12", default-features = false, features = ["http2", "charset", "rustls-tls"] }
sha1 = "0.10"
tokio = { version = "1", features = ["full"] }
tracing = "0.1"
tracing-subscriber = { version = "0.3", features = ["env-filter"] }
