[package]
name = "receiver"
version = "0.1.0"
edition = "2021"
publish = false

[dependencies]
axum = "=0.7.9"
base64 = "=0.22.1"
chrono = "=0.4.45"
serde = { version = "=1.0.229", features = ["derive"] }
serde_json = "=1.0.154"
sqlx = { version = "=0.8.6", default-features = false, features = ["runtime-tokio", "sqlite"] }
subtle = "=2.6.1"
thiserror = "=1.0.69"
tokio = { version = "=1.54.1", features = ["macros", "net", "rt-multi-thread"] }
uuid = { version = "=1.29.0", features = ["serde", "v4"] }
