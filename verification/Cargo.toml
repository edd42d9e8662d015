[package]
name = "update_store"
version = "0.1.0"
edition = "2021"
publish = false

[dependencies]
uuid = { version = "*", features = ["v4"] }
redis = "*"
chrono = "*"
chrono-tz = "*"
