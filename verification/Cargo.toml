[package]
name = "sync_games"
version = "0.1.0"
edition = "2021"
publish = false

[dependencies]
chrono = "=0.4.45"
dirs = "=7.0.0"
urlencoding = "=2.1.3"
serde = { version = "=1.0.229", features = ["derive"] }
serde_json = "=1.0.151"
reqwest = { version = "=0.12.28", default-features = false, features = ["rustls-tls", "json", "blocking"] }
notify = "=8.2.0"
notify-debouncer-mini = "=0.7.0"
dotenvy = "=0.15.7"
