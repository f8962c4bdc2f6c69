[package]
name = "ghostlink"
version = "0.1.0"
edition = "2021"
publish = false

[dependencies]
crc32fast = "1"
hmac = "0.12"
sha2 = "0.10"
rand = "0.8"
serde = { version = "1", features = ["derive"] }
serde_json = "1"
