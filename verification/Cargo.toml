[package]
name = "bifrost"
version = "0.1.0"
edition = "2021"
publish = false

[dependencies]
anyhow = "=1.0.104"
bincode = "=1.3.3"
dashmap = "=6.2.1"
env_logger = "=0.11.11"
futures-util = "=0.3.34"
log = "=0.4.34"
quinn = "=0.11.12"
rustls = { version = "=0.23.46", features = ["ring"] }
rustls-pemfile = "=2.2.0"
solana-tls-utils = "=2.3.13"
thiserror = "=2.0.21"
tokio = { version = "=1.54.1", features = ["full"] }
web-transport-quinn = "=0.13.5"
