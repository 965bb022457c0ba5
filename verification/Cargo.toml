[package]
name = "rpaths"
version = "0.1.0"
edition = "2021"
publish = false

[dependencies]
clap = { version = "4", features = ["cargo"] }
env_logger = "0.11"
expanduser = "1.2"
log = "0.4"
