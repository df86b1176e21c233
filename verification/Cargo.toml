[package]
name = "iotop"
version = "0.1.0"
edition = "2021"
publish = false

[dependencies]
anyhow = "1"
argh = "0.1"
chrono = "0.4"
crossterm = { version = "*", features = ["event-stream"] }
futures = "0.3"
libc = "0.2"
linux-taskstats = "*"
nix = { version = "*", features = ["user"] }
ratatui = "*"
tokio = { version = "1", features = ["full"] }
tokio-util = "0.7"
