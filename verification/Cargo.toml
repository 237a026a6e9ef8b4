[package]
name = "mpegts-pacer"
version = "0.1.0"
edition = "2021"
publish = false

[dependencies]
bytes = "1"
thiserror = "2"
tokio = { version = "1", features = ["io-std", "io-util", "macros", "net", "rt-multi-thread", "sync", "time"] }
