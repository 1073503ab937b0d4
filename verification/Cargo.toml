[package]
name = "codex_runtime"
version = "0.1.0"
edition = "2021"
publish = false

[dependencies]
anyhow = "1"
arc-swap = "1"
schemars = "0.8"
serde = { version = "1", features = ["derive"] }
serde_json = { version = "1", features = ["preserve_order"] }
sha1 = "0.10"
tokio = { version = "1", features = ["rt", "sync", "time", "macros"] }
tokio-util = { version = "0.7", features = ["rt"] }
tracing = "0.1"
ts-rs = "11"
