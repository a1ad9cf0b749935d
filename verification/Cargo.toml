[package]
name = "cygaz"
version = "0.1.0"
edition = "2021"
publish = false

[dependencies]
any_ascii = "*"
axum = "*"
chrono = "*"
convert_case = "*"
env_logger = "*"
envy = "*"
log = "*"
reqwest = { version = "*", default-features = false, features = ["blocking", "cookies", "json", "rustls-tls"] }
scraper = "*"
serde = { version = "*", features = ["derive"] }
serde_json = "*"
tokio = { version = "*", features = ["rt-multi-thread", "macros", "net"] }
tokio-cron-scheduler = "*"
url = "*"
