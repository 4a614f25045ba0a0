[package]
name = "camera_agent"
version = "0.1.0"
edition = "2021"
publish = false

[dependencies]
chrono = "*"
crossbeam = "*"
log = "*"
serde = { version = "*", features = ["derive"] }
serde_json = "*"
serde_yaml = "*"
hostname = "*"
