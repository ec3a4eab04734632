[package]
name = "monami"
version = "0.1.0"
edition = "2021"
publish = false

[dependencies]
base64 = "=0.10.1"
rust-crypto = "=0.2.36"
sha2 = "=0.8.2"
serde = { version = "=1.0.229", features = ["derive"] }
serde_json = "=1.0.154"
chrono = "=0.4.45"
clap = "=2.34.0"
uuid = { version = "=0.8.2", features = ["v4"] }
hostname = "=0.1.5"
