[package]
name = "niritiling"
version = "0.1.0"
edition = "2021"
publish = false

[dependencies]
niri-ipc = "*"
anyhow = "*"
log = "*"
env_logger = "*"
