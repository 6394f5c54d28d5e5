[package]
name = "blockchain_intelligence"
version = "0.1.0"
edition = "2021"
publish = false

[dependencies]
tokio = { version = "1", features = ["sync", "rt-multi-thread", "macros", "time", "net"] }
metrics = "0.24"
metrics-exporter-prometheus = { version = "0.16", default-features = false, features = ["http-listener"] }
serde = { version = "1", features = ["derive"] }
serde_json = "1"
axum = { version = "0.8", features = ["ws"] }
sqlx = { version = "0.8", default-features = false, features = ["postgres", "runtime-tokio", "migrate"] }
redis = { version = "0.27", features = ["tokio-comp"] }
futures-util = "0.3"
dotenvy = "0.15"
tracing = "0.1"
tracing-subscriber = { version = "0.3", features = ["env-filter"] }
