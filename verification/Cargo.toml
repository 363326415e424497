[package]
name = "wtx"
version = "0.1.0"
edition = "2021"
publish = false

[dependencies]
base64 = "0.22"
chrono = { version = "=0.4.45", default-features = false }
flate2 = "1"
futures-lite = "=2.6.1"
hmac = "0.12"
md-5 = "0.10"
serde = "=1.0.229"
serde_json = "=1.0.154"
sha2 = "0.10"
