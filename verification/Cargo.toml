[package]
name = "tipup"
version = "0.1.0"
edition = "2021"
publish = false

[dependencies]
mongodb = { version = "*", features = ["sync"] }
clap = "*"
env_logger = "*"
log = "*"
