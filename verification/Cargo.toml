[package]
name = "tui_journal"
version = "0.1.0"
edition = "2021"
publish = false

[dependencies]
anyhow = "=1.0.104"
chrono = { version = "=0.4.45", features = ["serde"] }
rayon = "=1.12.0"
serde = { version = "=1.0.229", features = ["derive"] }
serde_json = "=1.0.154"
tokio = { version = "=1.54.1", features = ["fs", "rt", "rt-multi-thread"] }
sqlx = { version = "=0.8.6", default-features = false, features = ["sqlite", "runtime-tokio", "chrono", "migrate"] }
path-absolutize = "=3.1.1"
log = "=0.4.35"
thiserror = "=2.0.21"
crossterm = "=0.28.1"
tui-textarea = "=0.7.0"
ratatui = "=0.29.0"
textwrap = "0.16"
