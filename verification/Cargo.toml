[package]
name = "rmr"
version = "0.1.0"
edition = "2021"
publish = false

[dependencies]
atoi = "2"
bytes = "1"
log = "0.4"
reqwest = { version = "0.11", default-features = false }
serde_json = "1"
snafu = "0.7"
tokio = { version = "1", features = ["full"] }
tracing = "0.1"
tracing-subscriber = "0.3"
