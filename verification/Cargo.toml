[package]
name = "script_syntax"
version = "0.1.0"
edition = "2021"
publish = false

[dependencies]
lorust = "*"
serde = { version = "1", features = ["derive"] }
serde_json = "1"
