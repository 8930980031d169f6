[package]
name = "ghostline"
version = "0.1.0"
edition = "2021"
publish = false

[dependencies]
hex = "0.4"
sha2 = "0.10"
zstd = "0.13"
chrono = "0.4"
hyper = { version = "0.14", features = ["full"] }
reqwest = { version = "0.11", default-features = false }
tokio = { version = "1", features = ["rt-multi-thread", "macros", "signal", "sync", "net", "time"] }
uuid = { version = "1", features = ["v4"] }
