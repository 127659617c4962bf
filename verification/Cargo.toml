[package]
name = "risex_latency"
version = "0.1.0"
edition = "2021"
publish = false

[dependencies]
alloy-primitives = "1"
alloy-sol-types = "1"
base64 = "0.22"
chrono = "0.4"
crc32fast = "1"
dotenvy = "0.15"
futures-util = "0.3"
hex = "0.4"
k256 = "0.13"
reqwest = { version = "0.12", default-features = false, features = ["json", "rustls-tls"] }
rust_decimal = "1"
serde = { version = "1", features = ["derive"] }
serde_json = "1"
tokio = { version = "1", features = ["full"] }
tokio-tungstenite = { version = "0.24", features = ["rustls-tls-webpki-roots"] }
