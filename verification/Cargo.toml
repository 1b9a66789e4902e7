[package]
name = "cites_ui"
version = "0.1.0"
edition = "2021"
publish = false

[dependencies]
chrono = { version = "0.4", default-features = false, features = ["alloc"] }
base64 = "0.22"
serde_json = "1"
