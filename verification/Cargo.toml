[package]
name = "loom"
version = "0.1.0"
edition = "2021"
publish = false

[dependencies]
anyhow = "1"
async-trait = "0.1"
axum = "0.7"
bb8-redis = "0.15"
bigdecimal = { version = "0.4", features = ["serde"] }
env_logger = "0.11"
log = "0.4"
redis = { version = "0.25", features = ["tokio-comp"] }
serde = { version = "1", features = ["derive"] }
serde_json = "1"
tokio = { version = "1", features = ["full"] }
toml = "0.8"
validator = { version = "0.16", features = ["derive"] }
