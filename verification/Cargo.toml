[package]
name = "kronical"
version = "0.1.0"
edition = "2021"
publish = false

[dependencies]
anyhow = "1"
bincode = "1"
chrono = { version = "=0.4.45", features = ["serde"] }
clap = { version = "=4.6.7", features = ["derive"] }
config = { version = "=0.15.27", default-features = false, features = ["toml"] }
crossbeam-channel = "0.5"
crossterm = "=0.29.0"
ctrlc = "3"
dirs = "=7.0.0"
duckdb = { version = "1", default-features = false, features = ["chrono"] }
env_logger = "=0.11.11"
indicatif = "=0.18.6"
libc = "0.2"
log = "0.4"
ratatui = { version = "=0.30.2", default-features = false, features = ["crossterm"] }
regex = "=1.13.1"
rusqlite = { version = "=0.41.1", features = ["bundled"] }
serde = { version = "1", features = ["derive", "rc"] }
serde_json = "=1.0.154"
shellexpand = "3"
sysinfo = { version = "=0.40.1", default-features = false, features = ["system"] }
tokio = { version = "1", features = ["sync", "rt"] }
tracing-appender = "0.2"
tracing-subscriber = { version = "0.3", features = ["env-filter", "chrono"] }
uiohook-rs = "*"
unicode-width = "=0.2.3"
winshift = "*"
