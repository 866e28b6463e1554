[package]
name = "fx_communication"
version = "0.1.0"
edition = "2021"
publish = false

[dependencies]
bytes = "1"
futures = "0.3"
tokio = { version = "1", features = ["io-util", "time"] }
tokio-serial = "5.4"
tokio-util = { version = "0.7", features = ["codec"] }
