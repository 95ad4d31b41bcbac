[package]
name = "mcping"
version = "0.1.0"
edition = "2021"
publish = false

[dependencies]
serde_json = "1"
tokio = { version = "1", features = ["rt", "net", "time", "io-util", "macros"] }
trust-dns-resolver = "0.23"
