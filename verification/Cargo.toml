[package]
name = "websocket_io"
version = "0.1.0"
edition = "2021"
publish = false

[dependencies]
bytes = "1"
getrandom = "0.3"
tokio = { version = "1", default-features = false, features = ["io-util"] }
