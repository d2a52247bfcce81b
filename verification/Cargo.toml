[package]
name = "grpcbench"
version = "0.1.0"
edition = "2021"
publish = false

[dependencies]
anyhow = "=1.0.104"
chrono = "=0.4.45"
clap = { version = "=4.6.7", features = ["derive"] }
futures = "=0.3.34"
humantime = "=2.4.0"
humantime-serde = "=1.1.1"
serde = { version = "=1.0.229", features = ["derive"] }
serde_json = "=1.0.154"
solana-sdk = { version = "=2.3.1", default-features = false }
solana-signature = "2"
terminal_size = "=0.4.4"
tokio = { version = "=1.54.1", features = ["full"] }
tokio-util = "=0.7.20"
toml = "=0.8.23"
tonic = "=0.12.3"
tracing = "=0.1.44"
tracing-subscriber = { version = "=0.3.23", features = ["env-filter"] }
