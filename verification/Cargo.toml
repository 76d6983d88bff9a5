[package]
name = "alloydb"
version = "0.1.0"
edition = "2021"
publish = false

[dependencies]
sled = "0.34"
uuid = { version = "1", features = ["v4"] }

[dev-dependencies]
tempfile = "3"
