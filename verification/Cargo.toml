[package]
name = "ritual"
version = "0.1.0"
edition = "2021"
publish = false

[dependencies]
bytes = "1"
notify = "6"
serde = { version = "1", features = ["derive"] }
serde_yaml = "0.9"
tokio = { version = "1", features = ["full"] }
tracing = "0.1"
tracing-subscriber = "0.3"
