[package]
name = "sky-daemon"
version = "0.4.9"
edition = "2021"
publish = false

[dependencies]
anyhow = "1"
async-trait = "0.1"
base64 = "0.22"
futures-util = "0.3"
hex = "0.4"
hmac = "0.12"
httparse = "1"
mysql_async = { version = "0.34", default-features = false, features = ["minimal"] }
rand = "0.8"
serde = { version = "1", features = ["derive"] }
serde_json = { version = "1", features = ["raw_value"] }
sha2 = "0.10"
subtle = "2"
tar = "0.4"
thiserror = "1"
tokio = { version = "1", features = ["full"] }
tokio-tungstenite = "0.24"
tokio-util = "0.7"
tracing = "0.1"
tracing-subscriber = "0.3"
zstd = "0.13"
