[package]
name = "blobservices"
version = "0.1.0"
edition = "2021"
publish = false

[dependencies]
crc-fast = "=1.10.0"
xxhash-rust = { version = "=0.8.19", features = ["xxh64"] }
md-5 = "=0.11.0"
sha1 = "=0.11.0"
sha2 = "=0.11.1"
sha3 = "=0.12.0"
digest = "=0.11.3"
blake2s_simd = "=1.0.5"
hmac = "=0.13.0"
base64 = "=0.23.1"
url = { version = "=2.5.8", features = ["serde"] }
hex = "=0.4.3"
axum = "=0.8.9"
tokio = { version = "=1.54.1", features = ["full"] }
tokio-util = { version = "=0.7.20", features = ["io"] }
tracing = "=0.1.44"
tracing-subscriber = { version = "=0.3.23", features = ["env-filter", "json"] }
serde = { version = "=1.0.229", features = ["derive"] }
serde_json = "=1.0.154"
prost = "=0.14.4"
reqwest = { version = "=0.13.5", default-features = false, features = ["stream"] }
hyper = { version = "=1.12.0", features = ["client", "http1"] }
hyper-util = { version = "=0.1.21", features = ["client-legacy", "http1", "tokio"] }
http-body-util = "=0.1.5"
futures = "=0.3.34"
uuid = { version = "=1.29.0", features = ["v7"] }
chrono = "=0.4.45"
rsa = "=0.9.10"
sqlx = { version = "=0.9.0", default-features = false, features = ["postgres", "runtime-tokio", "uuid"] }

[dev-dependencies]
nom = "8"
