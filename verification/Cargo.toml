[package]
name = "selium"
version = "0.1.0"
edition = "2021"
publish = false

[dependencies]
memmap2 = "*"
tokio = { version = "*", features = ["rt-multi-thread", "macros", "sync", "time"] }
futures = "*"
