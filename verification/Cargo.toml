[package]
name = "radio_core"
version = "0.1.0"
edition = "2021"
publish = false

[dependencies]
crc32fast = "=1.5.4"
dimpl = { version = "=0.7.6", default-features = false, features = ["rust-crypto"] }
serde = { version = "1", features = ["derive"] }
serde_json = "=1.0.154"
str0m = { version = "=0.24.1", default-features = false }
str0m-rust-crypto = "=0.6.0"
zeroize = "=1.9.1"
