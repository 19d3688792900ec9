[package]
name = "rav"
version = "0.1.0"
edition = "2021"
publish = false

[dependencies]
env_logger = "*"
log = "*"
memmap2 = "*"
tokio = { version = "*", features = ["io-util"] }
