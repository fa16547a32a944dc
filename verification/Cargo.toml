[package]
name = "passthrough_fs"
version = "0.1.0"
edition = "2021"
publish = false

[dependencies]
clap = { version = "*", features = ["derive"] }
ctrlc = "*"
env_logger = "*"
fuser = "*"
libc = "*"
log = "*"
