[package]
name = "todo_repository"
version = "0.1.0"
edition = "2021"
publish = false

[dependencies]
anyhow = "=1.0.104"
axum = "=0.4.8"
dotenv = "=0.15.0"
hyper = { version = "=0.14.32", features = ["full"] }
serde = { version = "=1.0.229", features = ["derive"] }
sqlx = { version = "=0.5.13", features = ["runtime-tokio-rustls", "any", "postgres"] }
thiserror = "=1.0.69"
tokio = { version = "=1.54.1", features = ["full"] }
tower-http = { version = "=0.2.5", features = ["cors"] }
tracing = "=0.1.44"
tracing-subscriber = { version = "=0.3.23", features = ["env-filter"] }
validator = { version = "=0.14.0", features = ["derive"] }
