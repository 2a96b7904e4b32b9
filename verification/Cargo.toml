[package]
name = "zelland"
version = "0.1.0"
edition = "2021"
publish = false

[dependencies]
kdl = "=6.7.1"
serde = { version = "=1.0.229", features = ["derive"] }
serde_json = "=1.0.154"
chrono = "=0.4.45"
rand = "=0.8.8"
base64 = "=0.22.1"
ipnetwork = "=0.20.0"
uuid = { version = "=1.29.0", features = ["v4"] }
tokio = { version = "1", features = ["rt-multi-thread", "macros", "net", "fs", "time", "sync"] }
axum = { version = "0.8", features = ["ws"] }
futures-util = { version = "0.3", features = ["sink"] }
notify = "8"
