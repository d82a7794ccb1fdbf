[package]
name = "ontv"
version = "0.1.0"
edition = "2021"
publish = false

[dependencies]
arrayvec = "=0.7.8"
base64 = "=0.20.0"
twox-hash = "=1.6.3"
uuid = { version = "=1.29.0", features = ["v4"] }
chrono = "=0.4.45"
slab = "=0.4.12"
serde = { version = "=1.0.229", features = ["derive"] }
serde_json = "=1.0.154"
serde_yaml = "0.9"
