[package]
name = "blink_store"
version = "0.1.0"
edition = "2021"
publish = false

[dependencies]
base64 = "*"
tokio = { version = "*", features = ["net", "rt-multi-thread", "macros", "signal", "time", "fs", "io-util", "sync"] }
clap = { version = "*", features = ["derive"] }
anyhow = "*"
tracing = "*"
tracing-appender = "*"
tracing-subscriber = { version = "*", features = ["env-filter", "fmt"] }
