[package]
name = "peanut"
version = "0.1.0"
edition = "2021"
publish = false

[dependencies]
aead = { version = "0.5", features = ["stream", "arrayvec", "getrandom", "std"] }
aes-gcm-siv = "0.11"
anyhow = "1"
base64 = "0.22"
hex = "0.4"
log = "0.4"
sha2 = "0.10"
zstd = "0.13"
