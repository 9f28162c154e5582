[package]
name = "isobemak"
version = "0.2.5"
edition = "2021"
publish = false

[dependencies]
crc32fast = "1"
uuid = { version = "1", features = ["v4"] }
rand = "0.8"
tempfile = "3"

[dev-dependencies]
fatfs = "0.3"
