[package]
name = "rv_core"
version = "0.1.0"
edition = "2021"
publish = false

[dependencies]
actix = "*"
clap = { version = "*", features = ["derive"] }
elf = "*"
env_logger = "*"
log = "*"
