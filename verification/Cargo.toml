[package]
name = "savesync"
version = "0.1.0"
edition = "2021"
publish = false

[dependencies]
regex = "*"
axum = "*"
tokio = { version = "*", features = ["full"] }
tokio-util = "*"
async-trait = "*"
serde = { version = "*", features = ["derive"] }
serde_yaml = "*"
serde_json = "*"
reqwest = { version = "*", default-features = false }
uuid = { version = "*", features = ["v4"] }
