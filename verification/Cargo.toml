[package]
name = "astroburst_server"
version = "0.1.0"
edition = "2021"
publish = false

[dependencies]
anyhow = "1"
axum = "0.7"
dashmap = "6"
env_logger = "0.11"
libc = "0.2"
log = "0.4"
memmap2 = "0.9"
ndarray = "0.16"
ratatui = "0.29"
serde = { version = "1", features = ["derive"] }
serde_json = "1"
tokio = { version = "1", features = ["full"] }
tokio-util = { version = "0.7", features = ["io"] }
uuid = { version = "1", features = ["v4"] }

[dev-dependencies]
tempfile = "3"
