[package]
name = "tlq"
version = "0.1.0"
edition = "2021"
publish = false

[dependencies]
uuid = { version = "1", features = ["v7"] }
serde = { version = "1", features = ["derive"] }
axum = "0.8"
tokio = { version = "1", features = ["macros", "rt-multi-thread", "net", "sync"] }
tracing = "0.1"
tracing-subscriber = "0.3"
