[package]
name = "snapmaker_timelapse_syncer"
version = "0.1.0"
edition = "2021"
publish = false

[dependencies]
anyhow = "=1.0.104"
base64 = "=0.22.1"
chrono = { version = "=0.4.45", features = ["serde"] }
futures-util = "=0.3.34"
mdns-sd = "=0.21.7"
percent-encoding = "=2.3.2"
reqwest = { version = "=0.12.28", default-features = false, features = ["json", "stream"] }
serde = { version = "=1.0.229", features = ["derive"] }
serde_json = "=1.0.154"
tokio = { version = "=1.54.1", features = ["rt-multi-thread", "macros", "fs", "sync", "time", "io-util"] }
url = "=2.5.8"
uuid = { version = "=1.29.0", features = ["v4"] }
