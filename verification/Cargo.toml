[package]
name = "hummock"
version = "0.1.0"
edition = "2021"
publish = false

[dependencies]
anyhow = "1"
async-trait = "0.1"
bytes = "1"
futures = "0.3"
parking_lot = "0.12"
scopeguard = "1"
tokio = { version = "1", features = ["sync", "rt", "rt-multi-thread", "macros", "time"] }
tokio-stream = "0.1"
tonic = { version = "*", default-features = false }
tracing = "0.1"

[dev-dependencies]
itertools = "*"
