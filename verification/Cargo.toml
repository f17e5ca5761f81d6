[package]
name = "codex-bridge"
version = "0.1.0"
edition = "2021"
publish = false

[dependencies]
axum = "=0.8.9"
base64 = "=0.23.1"
chrono = "=0.4.45"
clap = { version = "=4.6.7", features = ["derive"] }
dashmap = "=6.2.1"
libc = "=0.2.191"
regex = "=1.13.1"
rmcp = { version = "=3.8.0", features = ["server", "transport-streamable-http-server"] }
rusqlite = { version = "=0.41.1", features = ["bundled"] }
serde = { version = "=1.0.229", features = ["derive"] }
serde_json = "=1.0.154"
serde_yaml = "=0.9.34"
sha2 = "=0.11.1"
subtle = "=2.6.1"
tokio = { version = "=1.54.1", features = ["full"] }
tokio-util = { version = "=0.7.20", features = ["rt"] }
tracing = "=0.1.44"
tracing-subscriber = { version = "=0.3.23", features = ["env-filter", "json"] }
uuid = { version = "=1.29.0", features = ["v4", "v7"] }
windows-sys = { version = "=0.61.2", features = ["Win32_System_Threading"] }
