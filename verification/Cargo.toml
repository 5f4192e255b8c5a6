[package]
name = "open_sentry"
version = "0.1.0"
edition = "2021"
publish = false

[dependencies]
flate2 = "=1.1.10"
sha2 = "=0.10.9"
argon2 = "=0.5.3"
uuid = { version = "=1.29.0", features = ["v4", "serde"] }
sourcemap = "=9.3.2"
object = "=0.40.0"
serde = { version = "=1.0.229", features = ["derive"] }
serde_json = "=1.0.154"
axum = "=0.8.9"
tokio = { version = "=1.54.1", features = ["full"] }
sqlx = { version = "=0.8.6", default-features = false, features = ["runtime-tokio", "postgres", "uuid", "chrono", "json", "migrate", "macros"] }
chrono = { version = "=0.4.45", features = ["serde"] }
reqwest = { version = "=0.12.28", features = ["json"] }
lettre = { version = "=0.11.23", features = ["tokio1", "tokio1-native-tls"] }
tower-http = { version = "=0.6.11", features = ["trace"] }
tracing = "=0.1.44"
tracing-subscriber = { version = "=0.3.23", features = ["env-filter"] }
anyhow = "=1.0.104"
config = { version = "=0.15.27", default-features = false }
sentry = { version = "=0.48.5", features = ["logs"] }
