[package]
name = "yomitan"
version = "0.1.0"
edition = "2021"
publish = false

[dependencies]
zip = "*"
serde_json = "*"
snap = "*"
serde = { version = "*", features = ["derive"] }
