[package]
name = "freshrss_filter"
version = "0.1.0"
edition = "2021"
publish = false

[dependencies]
anyhow = "=1.0.104"
chrono = "=0.4.45"
clap = { version = "=4.6.7", features = ["derive"] }
colored = "=3.1.1"
config = { version = "=0.15.27", default-features = false, features = ["toml"] }
crossterm = "=0.29.0"
futures = "=0.3.34"
indicatif = "=0.18.6"
md5 = "=0.8.1"
ratatui = "=0.30.2"
regex = "=1.13.1"
reqwest = { version = "=0.13.5", default-features = false, features = ["json", "form", "native-tls"] }
serde = { version = "=1.0.229", features = ["derive"] }
serde_json = "=1.0.154"
sqlx = { version = "=0.9.0", default-features = false, features = ["sqlite", "runtime-tokio"] }
tokio = { version = "=1.54.1", features = ["rt-multi-thread", "macros", "signal", "time"] }
tokio-cron-scheduler = "=0.15.1"
tracing = "=0.1.44"
tracing-subscriber = { version = "=0.3.23", features = ["env-filter"] }
