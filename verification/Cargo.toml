[package]
name = "nimble"
version = "0.1.0"
edition = "2021"
publish = false

[dependencies]
serde = { version = "1", features = ["derive"] }
serde_json = "1"
serde_yaml = "0.9"
walkdir = "2"
notify = "8"
dirs = "6"
arboard = "3"
enigo = "0.6"

[dev-dependencies]
tempfile = "3"
