[package]
name = "prompt_cache"
version = "0.1.0"
edition = "2021"
publish = false

[dependencies]
base64 = "0.22"
hex = "0.4"
mime_guess = "2"
parking_lot = "0.12"
pdf-extract = "*"
reqwest = { version = "0.12", default-features = false, features = ["rustls-tls"] }
serde_json = "1"
sha2 = "0.10"
