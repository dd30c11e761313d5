[package]
name = "localorderbook"
version = "0.1.0"
edition = "2021"
publish = false

[dependencies]
ringbuffer = "=0.16.0"
anyhow = "*"
dotenvy = "*"
serde = { version = "*", features = ["derive"] }
serde_yaml = "*"
tokio = { version = "*", features = ["macros", "rt-multi-thread", "signal", "sync"] }
tracing = "*"
binance-sdk = { version = "=74.0.0", features = ["spot"] }
