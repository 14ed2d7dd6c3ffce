[package]
name = "pacer_daemon"
version = "0.1.0"
edition = "2021"
publish = false

[dependencies]
anyhow = "1"
async-trait = "0.1"
bytes = "=1.12.1"
futures = "0.3"
hyper = "1"
prometheus = { version = "=0.14.0", default-features = false }
s3s = "0.13"
tokio = { version = "1", features = ["macros", "rt", "signal", "sync", "time"] }
tokio-stream = "0.1"
tonic = { version = "=0.14.9", default-features = false }
tracing = "0.1"
