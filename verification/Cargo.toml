[package]
name = "artifact_cache"
version = "0.1.0"
edition = "2021"
publish = false

[dependencies]
hmac = "=0.13.0"
sha2 = "=0.11.1"
hex = "=0.4.3"
chrono = "=0.4.45"
axum = "=0.8.9"
axum-extra = { version = "=0.12.6", features = ["typed-header"] }
tokio = { version = "=1.54.1", features = ["full"] }
serde = { version = "=1.0.229", features = ["derive"] }
http = "=1.5.0"
tracing = "=0.1.44"
figment = { version = "=0.10.19", features = ["env"] }
dotenvy = "=0.15.7"
aws-sdk-s3 = { version = "=1.157.0", default-features = false }
