[package]
name = "disk_cleanup_tool"
version = "0.1.0"
edition = "2021"
publish = false

[dependencies]
csv = "1"
walkdir = "2"
clap = { version = "4", features = ["derive"] }
crossterm = "0.28"
ratatui = "0.29"
serde = { version = "1", features = ["derive"] }
thiserror = "1"
