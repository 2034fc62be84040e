[package]
name = "imbue_engine"
version = "0.1.0"
edition = "2021"
publish = false

[dependencies]
imbue = "*"
rocket = { version = "0.5", features = ["json"] }
serde = "*"
serde_json = "*"
