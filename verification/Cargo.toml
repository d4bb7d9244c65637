[package]
name = "stock_themes"
version = "0.1.0"
edition = "2021"
publish = false

[dependencies]
anyhow = "=1.0.104"
askama = "=0.16.1"
async-trait = "=0.1.92"
axum = "=0.8.9"
chromiumoxide = "=0.9.1"
chrono = { version = "=0.4.45", features = ["serde"] }
clap = { version = "=4.6.7", features = ["derive"] }
env_logger = "=0.11.11"
futures = "=0.3.34"
indicatif = "=0.18.6"
itertools = "=0.15.0"
log = "=0.4.34"
rand = "=0.9.5"
reqwest = { version = "=0.12.28", default-features = false, features = ["json", "cookies", "gzip", "deflate", "rustls-tls"] }
serde = { version = "=1.0.229", features = ["derive"] }
serde_json = "=1.0.154"
sqlx = { version = "=0.8.6", default-features = false, features = ["runtime-tokio", "sqlite", "chrono", "json"] }
sysinfo = "*"
tokio = { version = "=1.54.1", features = ["full"] }
toml = "1.1"
ureq = { version = "3", features = ["json"] }
url = "=2.5.8"
