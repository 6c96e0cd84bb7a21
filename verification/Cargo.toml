[package]
name = "starsync"
version = "0.1.0"
edition = "2021"
publish = false

[dependencies]
diffy = "*"
sanitize-filename = "*"
sysinfo = "*"
time = { version = "*", features = ["formatting"] }
serde = { version = "*", features = ["derive"] }
serde_json = "*"
clap = { version = "*", features = ["derive"] }
env_logger = "*"
log = "*"
