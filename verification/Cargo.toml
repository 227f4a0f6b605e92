[package]
name = "beving_backend"
version = "0.1.0"
edition = "2021"
publish = false

[dependencies]
axum = "0.6"
parking_lot = "0.12"
reqwest = { version = "0.11", default-features = false, features = ["json"] }
serde = { version = "1", features = ["derive"] }
serde_json = "1"
tokio = { version = "1", features = ["macros", "rt-multi-thread", "time"] }
tokio-stream = "0.1"
tower = { version = "0.4", features = ["timeout", "util"] }
tower-http = { version = "0.4", features = ["cors", "trace"] }
tracing = "0.1"
tracing-subscriber = { version = "0.3", features = ["env-filter"] }
