[package]
name = "structured_logger"
version = "0.1.0"
edition = "2021"
publish = false

[dependencies]
log = { version = "0.4", features = ["std", "kv"] }
parking_lot = "0.12"
serde_json = "1"
tokio = { version = "1", features = ["rt-multi-thread", "sync", "io-util", "io-std"] }

[dev-dependencies]
gag = "1"
