[package]
name = "ftp_sync"
version = "0.1.0"
edition = "2021"
publish = false

[dependencies]
ftp-cmd-list-parse = "*"
async_ftp = "*"
tokio = { version = "*", features = ["full"] }
serde = { version = "*", features = ["derive"] }
serde_json = "*"
once_cell = "*"
