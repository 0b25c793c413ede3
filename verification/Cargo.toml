[package]
name = "liquidation_monitor"
version = "0.1.0"
edition = "2021"
publish = false

[dependencies]
regex = "1"
rust_decimal = "1"
url = "2"
serde = { version = "1", features = ["derive"] }
serde_json = "1"
anyhow = "1"
log = "0.4"
log4rs = "1"
lazy_static = "1"
tokio = { version = "1", features = ["rt-multi-thread", "macros", "sync"] }
tokio-tungstenite = "*"
futures-util = "0.3"

[dev-dependencies]
serde_json = "1"
