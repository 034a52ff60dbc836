[package]
name = "httpfile"
version = "0.1.0"
edition = "2021"
publish = false

[dependencies]
anyhow = "1"
argh = "0.1"
crossterm = { version = "0.25", features = ["event-stream"] }
futures = "0.3"
reqwest = { version = "0.11", default-features = false }
thiserror = "1"
tokio = { version = "1", features = ["macros", "rt-multi-thread", "sync", "time"] }
tui = "0.19"
