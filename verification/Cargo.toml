[package]
name = "backontime"
version = "0.1.0"
edition = "2021"
publish = false

[dependencies]
env_logger = "0.4"
log = "0.3"
notify = "4.0"
serde = "1.0"
serde_derive = "1.0"
toml = "0.4"
