[package]
name = "argon2_engine"
version = "0.1.0"
edition = "2021"
publish = false

[dependencies]
base64 = "0.13"
crossbeam-utils = "0.8"
serde = { version = "1", features = ["derive"] }
serde_json = "1"
