[package]
name = "reinfer_cli"
version = "0.1.0"
edition = "2021"
publish = false

[dependencies]
anyhow = "1"
chrono = "0.4"
colored = "2"
crc32fast = "1"
dialoguer = "0.11"
dirs = "5"
encoding_rs = "0.8"
env_logger = "0.11"
indicatif = "0.17"
log = "0.4"
regex = "1"
serde = { version = "1", features = ["derive"] }
serde_json = "1"
structopt = "0.3"
url = "2"
