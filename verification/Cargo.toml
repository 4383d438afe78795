[package]
name = "numtracker"
version = "0.1.0"
edition = "2021"
publish = false

[dependencies]
chrono = "0.4"
serde = { version = "1", features = ["derive"] }
tokio = { version = "1", features = ["macros", "rt-multi-thread", "net"] }
futures = "0.3"
tracing = "0.1"
sqlx = { version = "0.8", features = ["sqlite", "runtime-tokio"] }
reqwest = { version = "0.12", default-features = false, features = ["json", "rustls-tls"] }
inquire = "0.7"
axum = "*"
axum-extra = { version = "*", features = ["typed-header"] }
async-graphql = "*"
async-graphql-axum = "*"
