[package]
name = "live_session"
version = "0.1.0"
edition = "2021"
publish = false

[dependencies]
anyhow = "1"
futures-lite = "2"
tokio = { version = "1", features = ["rt", "sync"] }
tracing = "0.1"
tracing-subscriber = { version = "0.3", features = ["env-filter"] }
