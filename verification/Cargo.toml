[package]
name = "ipinfo-round-robin-api"
version = "0.1.0"
edition = "2021"
publish = false

[dependencies]
axum = "0.7"
dashmap = "6"
dotenvy = "0.15"
parking_lot = "0.12"
reqwest = { version = "0.12", default-features = false, features = ["rustls-tls"] }
serde = { version = "1", features = ["derive"] }
serde_json = "1"
tokio = { version = "1", features = ["macros", "net", "rt-multi-thread", "sync"] }
tracing = "0.1"
tracing-subscriber = { version = "0.3", features = ["env-filter", "json"] }
web-time = "1"
worker = "*"
