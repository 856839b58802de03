[package]
name = "event_gateway"
version = "0.1.0"
edition = "2021"
publish = false

[dependencies]
regex = "=1.13.1"
jsonschema = { version = "=0.58.6", default-features = false }
serde_json = "=1.0.151"
serde = { version = "=1.0.229", features = ["derive"] }
config = "=0.15.27"
tokio = { version = "=1.53.2", features = ["full"] }
axum = "=0.8.9"
uuid = { version = "=1.27.0", features = ["v4"] }
chrono = "=0.4.45"
log = "=0.4.34"
env_logger = "=0.11.11"
