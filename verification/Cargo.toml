[package]
name = "git_host"
version = "0.1.0"
edition = "2021"
publish = false

[dependencies]
chrono = { version = "=0.4.45", default-features = false, features = ["std", "clock", "serde"] }
serde = { version = "=1.0.229", features = ["derive"] }
serde_json = "=1.0.154"
thiserror = "=2.0.21"
axum = { version = "=0.8.9", default-features = false, features = ["json", "query", "tokio", "http1"] }
tokio = { version = "=1.54.1", features = ["fs", "rt", "macros"] }
backon = "=1.6.0"
async-trait = "=0.1.92"
tracing = "=0.1.44"
ts-rs = "=12.0.1"
