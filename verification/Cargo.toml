[package]
name = "agent_gateway"
version = "0.1.0"
edition = "2021"
publish = false

[dependencies]
aes-gcm = "=0.10.3"
base64 = "=0.22.1"
rand = "=0.8.8"
chrono = { version = "=0.4.45", features = ["serde"] }
uuid = { version = "=1.27.0", features = ["v4", "serde"] }
axum = "=0.8.9"
tokio = { version = "=1.53.2", features = ["full"] }
serde = { version = "=1.0.229", features = ["derive"] }
serde_json = "=1.0.151"
reqwest = { version = "=0.12.28", default-features = false, features = ["json"] }
dotenvy = "=0.15.7"
