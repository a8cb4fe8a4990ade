[package]
name = "gtui"
version = "0.1.0"
edition = "2021"
publish = false

[dependencies]
anyhow = "1"
async-trait = "0.1"
base64 = "0.22"
chrono = "0.4"
crossterm = "0.27"
google-gmail1 = "5"
hyper = { version = "0.14", features = ["client", "http1"] }
hyper-rustls = "0.25"
inflections = "1.1"
keyring = { version = "2", default-features = false }
open = "5"
ratatui = "0.26"
serde = { version = "1", features = ["derive"] }
serde_json = "1"
sqlx = { version = "0.7", default-features = false, features = ["sqlite", "runtime-tokio"] }
tokio = { version = "1", features = ["rt-multi-thread", "macros", "sync", "time"] }
toml = "0.8"
