[package]
name = "watt"
version = "0.1.0"
edition = "2021"
publish = false

[dependencies]
anyhow = "=1.0.104"
clap = { version = "=4.6.7", features = ["derive"] }
core-foundation = "=0.10.1"
crossterm = { version = "=0.28.1", features = ["event-stream"] }
futures = "=0.3.34"
nvml-wrapper = "=0.10.0"
ratatui = "=0.29.0"
reqwest = { version = "=0.12.28", default-features = false, features = ["json", "rustls-tls"] }
serde_json = "=1.0.154"
sysinfo = "=0.33.1"
tokio = { version = "=1.54.1", features = ["macros", "rt-multi-thread", "sync"] }
