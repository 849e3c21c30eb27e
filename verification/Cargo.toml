[package]
name = "lobby"
version = "0.1.0"
edition = "2021"
publish = false

[dependencies]
uuid = { version = "*", features = ["v4"] }
chrono = "*"
serde = { version = "*", features = ["derive"] }
serde_json = "*"
tokio = { version = "*", features = ["rt-multi-thread", "macros", "sync", "net"] }
axum = { version = "*", features = ["ws"] }
axum-extra = { version = "*", features = ["cookie"] }
futures-util = "*"
anyhow = "*"
thiserror = "*"
tracing = "*"
tracing-subscriber = "*"
