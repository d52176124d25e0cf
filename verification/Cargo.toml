[package]
name = "balance_tracker"
version = "0.1.0"
edition = "2021"
publish = false

[dependencies]
subxt = "=0.35.3"
sqlx = { version = "=0.7.4", default-features = false, features = ["sqlite", "runtime-tokio"] }
tokio = { version = "=1.54.1", features = ["rt-multi-thread", "macros", "sync", "net", "fs"] }
axum = { version = "=0.7.9", default-features = false, features = ["json", "tokio", "http1"] }
serde_json = "=1.0.154"
tracing = "=0.1.44"
tracing-subscriber = "0.3"
