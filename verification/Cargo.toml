[package]
name = "concurrentes"
version = "0.1.0"
edition = "2021"
publish = false

[dependencies]
actix = "0.13"
actix-rt = "2"
colored = "2"
futures = "0.3"
rand = "0.8"
tokio = { version = "1", features = ["io-util", "net", "sync", "time", "rt", "macros"] }
tokio-stream = { version = "0.1", features = ["io-util"] }
