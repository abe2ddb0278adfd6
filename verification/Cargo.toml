[package]
name = "jrpxy"
version = "0.1.0"
edition = "2021"
publish = false

[dependencies]
bytes = "1"
httparse = "1"
thiserror = "2"
tokio = { version = "1", features = ["io-util", "net", "rt", "time", "sync"] }
