[package]
name = "dos_safar"
version = "0.1.0"
edition = "2021"
publish = false

[dependencies]
chrono = "*"
serde = { version = "*", features = ["derive"] }
serde_json = "*"
toml = "*"
clap = "*"
tokio = { version = "*", features = ["rt-multi-thread", "macros", "time", "process", "fs", "io-util", "sync"] }
tracing = "*"
tracing-subscriber = { version = "*", features = ["env-filter"] }
