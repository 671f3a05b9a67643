[package]
name = "vael_core"
version = "0.1.0"
edition = "2021"
publish = false

[dependencies]
argon2 = "=0.6.0"
axum = "*"
async-openai = { version = "=0.42.1", features = ["chat-completion", "embedding"] }
chrono = { version = "*", features = ["serde"] }
dotenvy = "*"
pgvector = { version = "*", features = ["sqlx"] }
serde = { version = "*", features = ["derive"] }
serde_json = "*"
sqlx = { version = "*", features = ["runtime-tokio", "postgres", "chrono", "uuid"] }
tokio = { version = "*", features = ["full"] }
tower-http = { version = "*", features = ["cors"] }
tracing = "*"
tracing-subscriber = { version = "*", features = ["env-filter"] }
uuid = { version = "*", features = ["serde"] }
