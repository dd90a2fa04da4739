[package]
name = "omspbase"
version = "0.1.0"
edition = "2021"
publish = false

[dependencies]
rand = "=0.8.8"
chrono = "=0.4.45"
hmac = "=0.12.1"
sha2 = "=0.10.9"
dashmap = "=6.2.1"
serde = { version = "=1.0.229", features = ["derive"] }
serde_json = "=1.0.154"
serde_yaml = "=0.9.34"
tokio = { version = "=1.54.1", features = ["sync", "net", "rt", "macros", "time"] }
thiserror = "=2.0.21"
base64 = "0.22"
futures-util = { version = "0.3", features = ["sink"] }
tokio-tungstenite = "*"
axum = { version = "*", features = ["ws"] }
uuid = { version = "1", features = ["v4"] }
