[package]
name = "tor_downloader_rs"
version = "0.1.0"
edition = "2021"
publish = false

[dependencies]
url = "2"
regex = "1"
scraper = "*"
tokio = { version = "1", features = ["full"] }
reqwest = { version = "0.12", default-features = false, features = ["socks", "rustls-tls"] }
clap = "4"
env_logger = "0.11"
log = "0.4"
console = "0.15"
indicatif = "0.17"
crossterm = "0.28"
ratatui = "0.29"
serde = { version = "1", features = ["derive"] }
serde_json = "1"
thiserror = "1"
futures = "0.3"
bytes = "1"
rand = "0.8"
