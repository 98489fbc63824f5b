[package]
name = "candle_memory"
version = "0.1.0"
edition = "2021"
publish = false

[dependencies]
chrono = { version = "=0.4.45", features = ["serde"] }
uuid = { version = "=1.29.1", features = ["v4"] }
base64 = "=0.22.1"
serde = { version = "=1.0.229", features = ["derive"] }
serde_json = "=1.0.154"
crossbeam-skiplist = "=0.1.3"
arc-swap = "=1.9.3"
tokio = { version = "=1.54.1", default-features = false, features = ["sync", "time"] }
