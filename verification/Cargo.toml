[package]
name = "petir"
version = "0.1.0"
edition = "2021"
publish = false

[dependencies]
unicode-width = "0.1"
vte = "0.13"
anyhow = "1"
arboard = { version = "3", default-features = false }
bitflags = "2"
serde = { version = "1", features = ["derive"] }
toml = "0.8"
dirs = "5"
log = "0.4"
env_logger = { version = "0.11", default-features = false }
crossbeam-channel = "0.5"
portable-pty = "0.8"
