[package]
name = "camguard"
version = "0.1.0"
edition = "2021"
publish = false

[dependencies]
rand = "0.8"
anyhow = "1"
chrono = "0.4"
serde = { version = "1", features = ["derive"] }
opencv = "*"
