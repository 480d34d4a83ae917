[package]
name = "rue"
version = "0.1.0"
edition = "2021"
publish = false

[dependencies]
dirs = "*"
futures = "0.3"
mdns = "*"
reqwest = { version = "*", default-features = false }
tokio = { version = "*", features = ["rt-multi-thread", "macros", "time", "sync"] }
