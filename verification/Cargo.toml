[package]
name = "framesense"
version = "0.1.0"
edition = "2021"
publish = false

[dependencies]
base64 = "*"
screenshots = "*"
serde = { version = "*", features = ["derive"] }
serde_json = "*"
dirs = "*"
