[package]
name = "s3perf"
version = "0.1.0"
edition = "2021"
publish = false

[dependencies]
rand = { version = "=0.8.8", features = ["small_rng"] }
uuid = { version = "=1.29.1", features = ["v4"] }
base64 = "=0.22.1"
sha2 = "=0.10.9"
hmac = "=0.12.1"
hex = "=0.4.3"
chrono = { version = "=0.4.45", features = ["serde"] }
serde = { version = "=1.0.229", features = ["derive"] }
serde_yaml = "=0.9.34"
serde_json = "=1.0.154"
clap = { version = "=4.6.7", features = ["derive", "env"] }
tokio = { version = "=1.54.1", features = ["full"] }
aws-sdk-s3 = "=1.157.0"
aws-smithy-runtime-api = { version = "=1.19.2", features = ["client", "http-1x"] }
aws-smithy-types = { version = "=1.9.1", features = ["http-body-1-x"] }
anyhow = "=1.0.104"
csv = "=1.4.0"
zstd = "=0.13.4"
tracing = "=0.1.44"
tracing-subscriber = { version = "=0.3.23", features = ["env-filter"] }
md5 = "=0.7.0"
reqwest = { version = "=0.12.28", default-features = false, features = ["json", "rustls-tls"] }
zip = { version = "=2.6.1", default-features = false, features = ["deflate"] }
futures-util = { version = "=0.3.34", features = ["sink"] }
axum = { version = "0.8", features = ["ws"] }
tokio-tungstenite = "0.26"
hyper-rustls = { version = "=0.27.10", features = ["http1"] }
hyper-util = { version = "=0.1.21", features = ["client-legacy", "http1", "tokio"] }
rustls = "=0.23.46"
rustls-native-certs = "=0.8.5"
