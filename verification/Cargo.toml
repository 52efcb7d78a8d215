[package]
name = "textcon"
version = "0.1.0"
edition = "2021"
publish = false

[dependencies]
walkdir = "*"
ignore = "*"
globset = "*"
clap = { version = "*", features = ["derive"] }
serde = { version = "*", features = ["derive"] }
serde_json = "*"

[dev-dependencies]
tempfile = "*"
