[package]
name = "crossword"
version = "0.1.0"
edition = "2021"
publish = false

[dependencies]
serde_json = "=1.0.151"
base64 = "=0.22.1"
serde = { version = "=1.0.229", features = ["derive"] }
