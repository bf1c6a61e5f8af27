[package]
name = "uploader"
version = "0.1.0"
edition = "2021"
publish = false

[dependencies]
axum = { version = "=0.5.17", features = ["ws", "headers", "multipart"] }
futures = "=0.3.34"
headers = "=0.3.9"
tokio = { version = "=1.53.2", features = ["rt-multi-thread", "macros", "net", "fs", "io-util"] }
tokio-util = { version = "=0.7.19", features = ["io"] }
