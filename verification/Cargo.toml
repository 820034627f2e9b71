[package]
name = "cce-engine"
version = "0.1.0"
edition = "2021"
publish = false

[dependencies]
blake3 = "1"
regex = "1"
imara-diff = "0.2"
serde = { version = "1", features = ["derive"] }
serde_json = "1"
toml = "0.8"
ignore = "0.4"

[dev-dependencies]
tempfile = "3"
