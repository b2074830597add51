[package]
name = "cursor_mcp_subagents"
version = "0.1.0"
edition = "2021"
publish = false

[dependencies]
anyhow = "*"
clap = { version = "*", features = ["derive", "env"] }
parking_lot = "*"
reqwest = { version = "*", default-features = false, features = ["blocking", "json"] }
serde = { version = "*", features = ["derive"] }
serde_json = "*"
time = "*"
tokio = { version = "*", features = ["rt-multi-thread", "macros", "process", "io-util", "io-std", "time", "signal", "sync"] }
tracing = "*"
tracing-subscriber = { version = "*", features = ["env-filter"] }
url = "*"
uuid = { version = "*", features = ["v4"] }
which = "*"
