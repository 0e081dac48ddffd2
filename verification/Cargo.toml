[package]
name = "snowflake_proxy"
version = "0.1.0"
edition = "2021"
publish = false

[dependencies]
base64 = "=0.22.1"
rand = "=0.8.8"
url = "=2.5.8"
serde = { version = "=1.0.229", features = ["derive"] }
reqwest = { version = "=0.12.28", default-features = false, features = ["json", "rustls-tls"] }
tokio = { version = "=1.54.1", features = ["full"] }
tokio-tungstenite = "=0.21.0"
futures = "=0.3.34"
webrtc = "=0.11.0"
clap = { version = "=4.6.7", features = ["derive"] }
env_logger = "=0.11.11"
log = "=0.4.35"
anyhow = "=1.0.104"
