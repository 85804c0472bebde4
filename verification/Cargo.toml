[package]
name = "ordito"
version = "0.1.0"
edition = "2021"
publish = false

[dependencies]
chrono = "*"
cron = "*"
uuid = { version = "*", features = ["v4"] }
