[package]
name = "oai-proxy"
version = "0.1.0"
edition = "2021"
publish = false

[dependencies]
askama = "0.14"
axum = "0.8"
bytes = "1"
chrono = "0.4"
futures-util = "0.3"
reqwest = { version = "0.12", default-features = false, features = ["stream", "rustls-tls"] }
serde = { version = "1", features = ["derive"] }
serde_json = "1"
sha2 = "0.10"
sqlx = { version = "0.8", default-features = false, features = ["runtime-tokio", "sqlite", "macros"] }
thiserror = "2"
tokio = { version = "1", features = ["full"] }
tower-http = { version = "0.6", features = ["fs", "trace"] }
tracing = "0.1"
url = "2"
uuid = { version = "1", features = ["v4"] }
