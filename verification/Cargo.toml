[package]
name = "logcore"
version = "0.1.0"
edition = "2021"
publish = false

[dependencies]
etherparse = "*"
thiserror = "*"
tokio = { version = "*", features = ["sync", "time", "rt", "macros"] }
