[package]
name = "fuego"
version = "0.1.0"
edition = "2021"
publish = false

[dependencies]
icalendar = "=0.17.17"
axum = "=0.8.9"
axum-extra = { version = "=0.12.6", features = ["query"] }
axum-openapi3 = "=0.2.3"
dotenvy = "=0.15.7"
serde = { version = "=1.0.229", features = ["derive"] }
surrealdb = "=3.3.5"
tokio = { version = "=1.54.1", features = ["full"] }
tracing = "=0.1.44"
tracing-subscriber = { version = "=0.3.23", features = ["env-filter"] }

[dev-dependencies]
chrono = "=0.4.45"
