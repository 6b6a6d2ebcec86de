[package]
name = "nixos_metrics"
version = "0.1.0"
edition = "2021"
publish = false

[dependencies]
anyhow = "1"
chrono = "0.4"
clap = { version = "4", features = ["derive"] }
clap-verbosity-flag = "2"
env_logger = "0.10"
futures = "0.3"
log = "0.4"
num-traits = "0.2"
reqwest = { version = "0.11", default-features = false, features = ["rustls-tls"] }
rtrend = "*"
serde = { version = "1", features = ["derive"] }
serde_json = "1"
tokio = { version = "1", features = ["full"] }
