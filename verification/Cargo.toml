[package]
name = "regex_chunker"
version = "0.1.0"
edition = "2021"
publish = false

[dependencies]
regex = "1"
bytes = "1"
tokio = { version = "1", features = ["io-util"] }
tokio-stream = "0.1"
tokio-util = { version = "0.7", features = ["codec"] }
