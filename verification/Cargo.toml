[package]
name = "time_sigil"
version = "0.1.0"
edition = "2021"
publish = false

[dependencies]
axum = "0.7"
reqwest = { version = "0.12", default-features = false }
serde = { version = "1", features = ["derive"] }
tokio = { version = "1", features = ["full"] }
tokio-cron-scheduler = "*"
tokio-util = "0.7"
uuid = { version = "1", features = ["v4", "serde"] }
