[package]
name = "proxy_protocol"
version = "0.8.0"
edition = "2021"
publish = false

[dependencies]
crc32c = "0.6"
ipnet = "2"
thiserror = "2"
tokio = { version = "1", features = ["net", "io-util", "time", "sync", "rt", "rt-multi-thread", "macros"] }
tracing = "0.1"
axum = { version = "0.8", default-features = false, features = ["tokio", "http1"] }
