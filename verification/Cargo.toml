[package]
name = "codex_sidebar"
version = "0.1.0"
edition = "2021"
publish = false

[dependencies]
ratatui = { version = "=0.29.0", default-features = false, features = ["unstable-rendered-line-info"] }
tokio = { version = "=1.54.1", features = ["process", "time", "rt", "macros"] }
serde = { version = "=1.0.229", features = ["derive"] }
serde_json = "=1.0.154"
anyhow = "=1.0.104"
futures = "=0.3.34"
tracing = "=0.1.44"
color-eyre = "=0.6.5"
