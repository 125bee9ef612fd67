[package]
name = "nokkonenshelfapi"
version = "0.1.0"
edition = "2021"
publish = false

[dependencies]
uuid = { version = "=1.29.0", features = ["v4", "serde"] }
anyhow = "=1.0.104"
axum = "=0.8.9"
axum-extra = { version = "=0.10.3", features = ["cookie-private"] }
aide = { version = "=0.14.2", features = ["axum", "axum-json", "axum-query"] }
schemars = { version = "=0.8.22", features = ["uuid1", "chrono"] }
chrono = { version = "=0.4.45", default-features = false, features = ["clock", "serde"] }
oauth2 = "=4.4.2"
reqwest = { version = "=0.11.27", default-features = false, features = ["json", "rustls-tls"] }
serde = { version = "=1.0.229", features = ["derive"] }
sqlx = { version = "=0.8.6", default-features = false, features = ["runtime-tokio", "postgres", "uuid", "chrono"] }
tokio = { version = "=1.54.1", features = ["macros", "rt-multi-thread"] }
tower-http = { version = "=0.6.11", features = ["cors", "trace"] }
tracing = "=0.1.44"
