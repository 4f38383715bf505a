[package]
name = "belote"
version = "0.1.0"
edition = "2021"
publish = false

[dependencies]
rand = "=0.8.8"
rand_chacha = "=0.3.1"
sha2 = "=0.10.9"
base64 = "=0.22.1"
argon2 = { version = "=0.5.3", features = ["std"] }
serde = { version = "=1.0.229", features = ["derive"] }
serde_json = "=1.0.154"
thiserror = "=1.0.69"
anyhow = "=1.0.104"
axum = { version = "=0.8.9", features = ["ws"] }
axum-extra = { version = "=0.10.3", features = ["cookie"] }
tokio = { version = "=1.54.1", features = ["full"] }
tower-http = { version = "=0.6.11", features = ["cors", "trace"] }
tracing = "=0.1.44"
tracing-subscriber = { version = "=0.3.23", features = ["env-filter"] }
uuid = { version = "=1.29.0", features = ["v4", "v7", "serde"] }
sqlx = { version = "=0.8.6", default-features = false, features = ["runtime-tokio", "postgres", "uuid", "time", "json", "derive", "migrate"] }
time = { version = "=0.3.55", features = ["serde", "serde-well-known"] }
jsonwebtoken = "=9.3.1"
dotenvy = "=0.15.7"
futures-util = "=0.3.34"
