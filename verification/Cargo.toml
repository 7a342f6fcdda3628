[package]
name = "recover"
version = "0.1.0"
edition = "2021"
publish = false

[dependencies]
anyhow = "=1.0.104"
base64 = "=0.22.1"
chrono = "=0.4.45"
crossterm = "=0.28.1"
minus = { version = "=5.8.0", features = ["static_output", "search"] }
portable-pty = "=0.9.0"
regex = "=1.13.1"
rusqlite = { version = "=0.32.1", features = ["bundled"] }
serde = { version = "=1.0.229", features = ["derive"] }
serde_json = "=1.0.154"
strip-ansi-escapes = "=0.2.1"
