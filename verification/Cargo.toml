[package]
name = "gateway_core"
version = "0.1.0"
edition = "2021"
publish = false

[dependencies]
tokio = { version = "*", features = ["sync", "rt", "time", "net", "macros"] }
futures = "*"
tokio-tungstenite = "*"
