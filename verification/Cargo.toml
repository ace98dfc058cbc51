[package]
name = "gelflb"
version = "0.1.0"
edition = "2021"
publish = false

[dependencies]
serde_json = "*"
flate2 = "*"
etherparse = "*"
serde = { version = "*", features = ["derive"] }
toml = "*"
chrono = "*"
log = "*"
env_logger = "*"
libc = "*"
os_info = "*"
