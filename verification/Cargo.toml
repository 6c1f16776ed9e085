[package]
name = "spotlight"
version = "0.1.0"
edition = "2021"
publish = false

[dependencies]
base64 = "0.22"
plist = "1"
sys-locale = "0.3"
serde = { version = "1", features = ["derive"] }
serde_json = "1"
notify = "*"
