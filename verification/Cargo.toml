[package]
name = "albert"
version = "0.1.0"
edition = "2021"
publish = false

[dependencies]
serde = { version = "=1.0.229", features = ["derive"] }
serde_json = "=1.0.154"
shlex = "=1.3.0"
url = "=2.5.8"
regex = "=1.13.1"
openapiv3 = "2"
serde_yaml = "0.9"
