[package]
name = "sshmgr_tui"
version = "0.1.0"
edition = "2021"
publish = false

[dependencies]
anyhow = "*"
base64 = "*"
chrono = "*"
crossterm = { version = "*", features = ["event-stream"] }
dirs = "*"
filetime = "*"
futures-util = "*"
rand = "*"
ratatui = "*"
russh = "*"
russh-sftp = "*"
serde = { version = "*", features = ["derive"] }
serde_json = "*"
thiserror = "*"
tokio = { version = "*", features = ["full"] }
tokio-util = "*"
unicode-segmentation = "*"
unicode-width = "*"
