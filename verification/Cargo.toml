[package]
name = "sood"
version = "0.1.0"
edition = "2021"
publish = false

[dependencies]
uuid = { version = "1", features = ["v4"] }
tokio = { version = "1", features = ["full"] }
socket2 = { version = "0.5", features = ["all"] }
if-addrs = "*"
tracing = "0.1"
