[package]
name = "rbuilder"
version = "0.1.0"
edition = "2021"
publish = false

[dependencies]
ahash = "=0.8.12"
alloy-primitives = "=0.8.26"
alloy-rlp = "=0.3.17"
eyre = "0.6"
reqwest = { version = "=0.11.27", default-features = false, features = ["json", "rustls-tls"] }
serde = { version = "1", features = ["derive"] }
thiserror = "1"
time = "=0.3.55"
tokio = { version = "1", features = ["full"] }
tokio-util = "0.7"
tracing = "0.1"
tracing-subscriber = { version = "=0.3.23", features = ["env-filter", "json"] }
tungstenite = "0.23"
url = "=2.5.8"
uuid = { version = "=1.29.0", features = ["serde", "v4"] }
