[package]
name = "zero2prod"
version = "0.1.0"
edition = "2021"
publish = false

[dependencies]
uuid = { version = "=1.29.0", features = ["v4"] }
chrono = { version = "=0.4.45", default-features = false, features = ["clock"] }
actix-web = { version = "=4.18.1", default-features = false, features = ["macros"] }
config = { version = "=0.13.4", default-features = false, features = ["yaml"] }
secrecy = { version = "=0.8.0", features = ["serde"] }
serde = { version = "=1.0.229", features = ["derive"] }
serde-aux = { version = "=4.7.0", default-features = false }
sqlx = { version = "=0.6.3", default-features = false, features = ["runtime-tokio-rustls", "postgres", "uuid", "chrono"] }
tokio = { version = "=1.54.1", features = ["macros", "rt-multi-thread"] }
tracing = { version = "=0.1.44", features = ["log"] }
tracing-actix-web = { version = "=0.7.25", default-features = false }
reqwest = { version = "0.11", default-features = false, features = ["json", "rustls-tls"] }
tracing-subscriber = { version = "0.3", default-features = false, features = ["fmt", "env-filter", "std"] }
