[package]
name = "omp_headless"
version = "0.1.0"
edition = "2021"
publish = false

[dependencies]
serde_json = { version = "=1.0.154", features = ["preserve_order"] }
regex = "=1.13.1"
base64 = "=0.22.1"
fastrand = "=2.5.0"
serde = { version = "=1.0.229", features = ["derive"] }
tokio = { version = "=1.54.1", features = ["full"] }
tokio-util = "=0.7.20"
futures = "=0.3.34"
reqwest = { version = "=0.12.28", default-features = false, features = ["json", "rustls-tls", "stream"] }
clap = { version = "=4.6.7", features = ["derive"] }
anyhow = "=1.0.104"
agent-client-protocol = "1.3"
