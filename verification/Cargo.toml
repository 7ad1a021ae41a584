[package]
name = "objectpool"
version = "0.1.0"
edition = "2021"
publish = false

[dependencies]
crossbeam = "0.8"
dashmap = "6"
thiserror = "2"
tokio = { version = "1", features = ["rt", "time"] }
