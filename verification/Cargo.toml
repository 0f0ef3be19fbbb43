[package]
name = "aeris"
version = "0.1.0"
edition = "2021"
publish = false

[dependencies]
sha2 = "0.10"
shellexpand = "3"
serde = { version = "1", features = ["derive"] }
toml = "0.8"
ureq = "3"
which = "7"
thiserror = "2"
log = "0.4"
env_logger = "0.11"
tokio = { version = "1", features = ["rt-multi-thread"] }
