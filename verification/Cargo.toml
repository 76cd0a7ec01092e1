[package]
name = "canislink"
version = "0.2.0"
edition = "2021"
publish = false

[dependencies]
uuid = { version = "=1.29.0", features = ["v4", "serde"] }
getrandom = "=0.4.3"
chrono = { version = "=0.4.45", features = ["serde"] }
sha2 = "=0.10.9"
hex = "=0.4.3"
hmac = "=0.12.1"
sha1 = "=0.10.7"
base64 = "=0.22.1"
dashmap = "=6.2.1"
parking_lot = "=0.12.5"
serde = { version = "=1.0.229", features = ["derive"] }
serde_json = "=1.0.154"
thiserror = "=2.0.21"
anyhow = "=1.0.104"
tracing = "=0.1.44"
tracing-subscriber = { version = "=0.3.23", features = ["env-filter"] }
tokio = { version = "=1.54.1", features = ["full"] }
axum = { version = "=0.8.9", features = ["ws"] }
tower-http = { version = "=0.6.11", features = ["trace"] }
futures-util = "=0.3.34"
clap = { version = "=4.6.7", features = ["derive", "env"] }
reqwest = { version = "=0.12.28", default-features = false, features = ["json"] }
sqlx = { version = "=0.8.6", default-features = false, features = ["sqlite", "runtime-tokio"] }
