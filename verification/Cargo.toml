[package]
name = "shorty"
version = "0.1.0"
edition = "2021"
publish = false

[dependencies]
nanoid = "*"
anyhow = "*"
argon2 = "*"
axum = "*"
axum-extra = { version = "*", features = ["cookie", "typed-header"] }
chrono = { version = "*", features = ["serde"] }
config = "*"
jsonwebtoken = "*"
redis = { version = "*", features = ["tokio-comp"] }
secrecy = { version = "*", features = ["serde"] }
serde = { version = "*", features = ["derive"] }
serde-aux = "*"
serde_json = "*"
sqlx = { version = "*", default-features = false, features = ["runtime-tokio", "postgres", "chrono", "uuid"] }
tokio = { version = "*", features = ["macros", "rt-multi-thread", "net"] }
uuid = { version = "*", features = ["v4", "serde"] }
