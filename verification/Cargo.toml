[package]
name = "photo_digitizer"
version = "0.1.0"
edition = "2021"
publish = false

[dependencies]
anyhow = "1"
base64 = "=0.22.1"
ndarray = "0.16"
opencv = "=0.94.4"
ort = "=2.0.0-rc.10"
serde = { version = "1", features = ["derive"] }
serde_json = "1"
