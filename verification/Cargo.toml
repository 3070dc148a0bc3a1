[package]
name = "shardstore"
version = "0.1.0"
edition = "2021"
publish = false

[dependencies]
anyhow = "*"
axum = { version = "*", features = ["multipart"] }
bytes = "*"
chrono = "*"
dotenvy = "*"
mime_guess = "*"
reed-solomon-erasure = "*"
serde = { version = "*", features = ["derive"] }
sqlx = { version = "*", features = ["runtime-tokio", "sqlite"] }
tokio = { version = "*", features = ["full"] }
tokio-util = { version = "*", features = ["io"] }
tower-http = { version = "*", features = ["limit"] }
tracing = "*"
uuid = { version = "*", features = ["v4"] }
