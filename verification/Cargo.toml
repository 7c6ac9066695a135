[package]
name = "kalendar"
version = "0.1.0"
edition = "2021"
publish = false

[dependencies]
chrono = "0.4"
uuid = { version = "1", features = ["v4"] }
unicode-width = "0.2"
anyhow = "1"
async-trait = "0.1"
serde = { version = "1", features = ["derive"] }
serde_json = "1"
toml = "0.8"
dirs = "6"
tokio = { version = "1", features = ["macros", "rt-multi-thread", "process", "io-util", "sync"] }
crossterm = "0.28"
ratatui = "0.29"
tracing = "0.1"
tracing-subscriber = "0.3"

[dev-dependencies]
chrono-tz = "0.10"
