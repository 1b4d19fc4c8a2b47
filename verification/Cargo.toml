[package]
name = "nexus"
version = "0.1.0"
edition = "2021"
publish = false

[dependencies]
sha2 = "0.10"
serde = { version = "1", features = ["derive"] }
serde_json = "1"
ed25519-dalek = "2"
rand = "0.8"
uuid = { version = "1", features = ["v4", "serde"] }
aes-gcm = "0.10"
hkdf = "0.12"
zeroize = "1"
flate2 = "1"
tokio = { version = "1", features = ["full"] }
axum = "0.7"
tower-http = { version = "0.5", features = ["trace"] }
tracing = "0.1"
tracing-subscriber = { version = "0.3", features = ["env-filter"] }
prometheus = "0.13"
rocksdb = "0.22"
