[package]
name = "lane_switchboards"
version = "0.1.0"
edition = "2021"
publish = false

[dependencies]
bytes = "=1.12.1"
dashmap = "=6.2.1"
futures-util = { version = "=0.3.34", features = ["sink"] }
hmac = "=0.12.1"
once_cell = "=1.21.4"
parking_lot = "=0.12.5"
prometheus = { version = "=0.13.4", default-features = false }
prost = "=0.13.5"
serde = { version = "=1.0.229", features = ["derive"] }
serde_json = "=1.0.154"
sha2 = "=0.10.9"
socket2 = "=0.6.5"
tokio = { version = "=1.54.1", features = ["full"] }
tokio-tungstenite = "=0.24.0"
tokio-util = { version = "=0.7.20", features = ["codec"] }
tracing = "=0.1.44"
url = "=2.5.8"
vodozemac = "=0.11.1"
