[package]
name = "scanopy"
version = "0.1.0"
edition = "2021"
publish = false

[dependencies]
mac_address = "=1.2.1"
serde = { version = "=1.0.229", features = ["derive"] }
serde_json = "=1.0.154"
uuid = { version = "=1.29.0", features = ["v4", "serde"] }
anyhow = "=1.0.104"
tracing = "=0.1.44"
chrono = { version = "0.4", features = ["serde"] }
