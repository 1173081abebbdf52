[package]
name = "mp4tree"
version = "0.1.0"
edition = "2021"
publish = false

[dependencies]
clap = { version = "4", features = ["derive"] }
clap-verbosity-flag = "2"
env_logger = "0.11"
log = "0.4"
rand = "0.8"
