[package]
name = "sekirotool"
version = "0.1.0"
edition = "2021"
publish = false

[dependencies]
libmem = "4"
log = "0.4"
clap = { version = "4", features = ["derive"] }
env_logger = "0.11"
