[package]
name = "dns_core"
version = "0.1.0"
edition = "2021"
publish = false

[dependencies]
chrono = "0.4"
env_logger = "0.11"
log = "0.4"
regex = "1"
ring = "0.17"
serde = { version = "1", features = ["derive"] }
thiserror = "1"
