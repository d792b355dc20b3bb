[package]
name = "my-socks-server"
version = "0.1.0"
edition = "2021"
publish = false

[dependencies]
subtle = "2"
rlimit = "*"
serde = { version = "1", features = ["derive"] }
serde_yaml = "0.9"
tokio = { version = "1", features = ["full"] }
tokio-util = "0.7"
tracing = "0.1"
tracing-subscriber = { version = "0.3", features = ["env-filter", "json"] }
socket2 = { version = "*", features = ["all"] }
parking_lot = "0.12"
anyhow = "1"
mimalloc = "*"
thiserror = "*"
