[package]
name = "kmmgr"
version = "0.1.0"
edition = "2021"
publish = false

[dependencies]
hex = "0.4"
sanitize-filename = "*"
tokio = { version = "1", features = ["rt-multi-thread", "macros", "fs", "io-util"] }
futures = "0.3"
tokio-util = { version = "0.7", features = ["compat"] }
async_zip = { version = "*", features = ["tokio", "tokio-fs", "deflate"] }
url = "2"
reqwest = { version = "*", default-features = false, features = ["rustls-tls"] }
temp-file = "*"

[dev-dependencies]
serde_json = "1"
