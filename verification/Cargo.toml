[package]
name = "prost-canonical-serde"
version = "0.1.0"
edition = "2021"
publish = false

[dependencies]
base64 = "=0.22.1"
chrono = { version = "=0.4.45", default-features = false, features = ["std"] }
prost = "=0.13.5"
prost-build = "0.13"
prost-types = "=0.13.5"
serde = "=1.0.229"
serde_json = "=1.0.154"
