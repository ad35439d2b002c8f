[package]
name = "dev_header"
version = "0.1.0"
edition = "2021"
publish = false

[dependencies]
arboard = { version = "*", default-features = false }
clap = { version = "*", features = ["derive"] }
console = "*"
dialoguer = "*"
directories = "*"
env_logger = "*"
log = "*"
serde = { version = "*", features = ["derive"] }
serde_json = "*"
