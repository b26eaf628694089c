[package]
name = "rshotkey"
version = "0.1.0"
edition = "2021"
publish = false

[dependencies]
anyhow = "*"
env_logger = "*"
futures = "*"
rdev = "*"
tokio = { version = "*", features = ["rt-multi-thread", "sync", "macros", "time", "signal"] }
