[package]
name = "luanti_proxy"
version = "0.1.0"
edition = "2021"
publish = false

[dependencies]
anyhow = "1"
bytes = "1"
chrono = "0.4"
clap = { version = "4", features = ["derive"] }
config = "0.15"
env_logger = "0.11"
futures = "0.3"
hex = "0.4"
log = "0.4"
rand = "0.9"
rcgen = "0.14"
rustls = "0.23"
rustls-pemfile = "2"
serde = { version = "1", features = ["derive"] }
tokio = { version = "1", features = ["full"] }
tokio-rustls = "0.26"
tokio-tungstenite = "0.26"
web-transport-quinn = "*"
