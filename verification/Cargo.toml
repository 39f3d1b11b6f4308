[package]
name = "eks_version_exporter"
version = "0.1.0"
edition = "2021"
publish = false

[dependencies]
chrono = "*"
log = "*"
pretty_env_logger = "*"
prometheus_exporter = "*"
reqwest = { version = "*", default-features = false, features = ["blocking"] }
serde = { version = "*", features = ["derive"] }
serde_json = "*"
serde-xml-rs = "*"
