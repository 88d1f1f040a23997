[package]
name = "pathfix"
version = "0.1.0"
edition = "2021"
publish = false

[dependencies]
users = "0.11"
toml = "0.5"
serde = { version = "1", features = ["derive"] }
clap = { version = "3", features = ["derive", "cargo"] }
log = "0.4"
env_logger = "0.10"
thiserror = "1"
