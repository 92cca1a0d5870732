[package]
name = "vela"
version = "0.1.0"
edition = "2021"
publish = false

[dependencies]
anyhow = "1"
axum = { version = "0.8", features = ["multipart"] }
clap = { version = "4", features = ["derive"] }
lsblk = "*"
serde = { version = "1", features = ["derive"] }
time = "0.3"
tokio = { version = "1", features = ["full"] }
tokio-util = { version = "0.7", features = ["io"] }
toml = "0.8"
tower-cookies = "0.11"
uuid = { version = "1", features = ["v4"] }
