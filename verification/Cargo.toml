[package]
name = "respkv"
version = "0.1.0"
edition = "2021"
publish = false

[dependencies]
bytes = "1"
itertools = "*"
tokio = { version = "1", features = ["rt-multi-thread", "macros", "net", "io-util", "time"] }
clap = { version = "4", features = ["derive"] }
env_logger = "*"
log = "0.4"
chrono = "0.4"
