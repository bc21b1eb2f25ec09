[package]
name = "forwarder"
version = "0.1.0"
edition = "2021"
publish = false

[dependencies]
crossbeam-channel = "=0.5.17"
dashmap = "=5.5.3"
log = "0.4"
solana-metrics = "=1.18.26"
solana-perf = "=1.18.26"
solana-sdk = { version = "=1.18.26", default-features = false, features = ["full"] }
tokio = { version = "=1.54.1", features = ["rt", "sync"] }
