[package]
name = "veal"
version = "0.1.0"
edition = "2021"
publish = false

[dependencies]
zip = "=2.6.1"
serde = { version = "=1.0.229", features = ["derive"] }
serde_json = "=1.0.154"
chrono = "=0.4.45"
dirs = "=5.0.1"
ndarray = "=0.16.1"
ndarray-npy = { version = "=0.9.1", default-features = false }
