[package]
name = "tichu"
version = "0.1.0"
edition = "2021"
publish = false

[dependencies]
anyhow = "1"
axum = "0.7"
rand = "0.8"
serde = { version = "1", features = ["derive"] }
serde_json = "1"
socketioxide = { version = "0.10", features = ["state"] }
tokio = { version = "1", features = ["full"] }
tower-http = { version = "0.5", features = ["cors"] }
tracing = "0.1"
tracing-subscriber = "0.3"
uuid = { version = "1", features = ["v4"] }
