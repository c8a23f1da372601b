[package]
name = "rmap"
version = "0.1.0"
edition = "2021"
publish = false

[dependencies]
regex = "1"
ipnet = "2"
chrono = "0.4"
tokio = { version = "1", features = ["rt-multi-thread", "macros", "net", "time", "sync", "io-util"] }
futures = "0.3"
once_cell = "1"
dirs = "*"
reqwest = { version = "*", default-features = false }
