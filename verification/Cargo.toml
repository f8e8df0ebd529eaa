[package]
name = "vocab_backend"
version = "0.1.0"
edition = "2021"
publish = false

[dependencies]
chrono = "*"

[dev-dependencies]
serde_json = "*"
serde_yaml = "*"
