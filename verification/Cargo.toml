[package]
name = "ccdemo"
version = "0.1.0"
edition = "2021"
publish = false

[dependencies]
anyhow = "=1.0.104"
axum = "=0.7.9"
env_logger = "=0.11.11"
futures = "=0.3.34"
google-cloud-googleapis = "=0.16.1"
google-cloud-pubsub = "=0.30.0"
log = "=0.4.34"
serde = { version = "=1.0.229", features = ["derive"] }
tokio = { version = "=1.54.1", features = ["full"] }
tokio-postgres = "=0.7.18"
