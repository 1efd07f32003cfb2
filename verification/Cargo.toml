[package]
name = "bantam"
version = "0.1.0"
edition = "2021"
publish = false

[dependencies]
plain-binary-stream = "*"
tokio = { version = "1", features = ["net", "io-util", "sync", "time", "rt", "macros"] }
