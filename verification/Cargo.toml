[package]
name = "treadmill_summary"
version = "0.1.0"
edition = "2021"
publish = false

[dependencies]
redis = "*"
json = "*"
uuid = { version = "*", features = ["v4"] }
