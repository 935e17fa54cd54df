[package]
name = "poe_copilot"
version = "0.1.0"
edition = "2021"
publish = false

[dependencies]
base64 = "=0.22.1"
flate2 = "=1.1.10"
quick-xml = "=0.37.5"
serde = { version = "=1.0.229", features = ["derive"] }
serde_json = "=1.0.154"
thiserror = "2"
