[package]
name = "clay"
version = "0.1.0"
edition = "2021"
publish = false

[dependencies]
num-bigint = "0.4"
uuid = { version = "1", features = ["v4"] }
