[package]
name = "cadre"
version = "0.1.0"
edition = "2021"
publish = false

[dependencies]
anyhow = "=1.0.104"
aws-config = "=1.12.0"
aws-sdk-s3 = "1"
aws-sdk-secretsmanager = "=1.120.0"
aws-types = "=1.6.0"
axum = "=0.5.17"
clap = { version = "=3.2.25", features = ["derive", "env"] }
fastrand = "=1.9.0"
hyper = { version = "=0.14.32", features = ["full"] }
parking_lot = "=0.12.5"
serde = { version = "=1.0.229", features = ["derive"] }
serde_json = "=1.0.154"
tokio = { version = "=1.54.1", features = ["full"] }
tracing = "=0.1.44"
tracing-subscriber = "=0.3.23"
