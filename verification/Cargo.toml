[package]
name = "csb"
version = "0.2.10"
edition = "2021"
publish = false

[dependencies]
anyhow = "=1.0.104"
chrono = "=0.4.45"
clap = { version = "=4.6.7", features = ["derive"] }
crossterm = "=0.28.1"
dirs = "=5.0.1"
memchr = "=2.8.3"
ratatui = "=0.29.0"
rayon = "=1.12.0"
self_update = { version = "=1.0.0", default-features = false, features = ["ureq", "rustls", "github", "archive-tar", "compression-tar-gz"] }
serde = { version = "=1.0.229", features = ["derive"] }
serde_json = "=1.0.154"
trash = "1"
