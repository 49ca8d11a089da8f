[package]
name = "als_clips"
version = "0.1.0"
edition = "2021"
publish = false

[dependencies]
flate2 = "1"
roxmltree = "*"
serde = { version = "1", features = ["derive"] }
serde_yaml = "0.9"
