[package]
name = "dawam"
version = "0.1.0"
edition = "2021"
publish = false

[dependencies]
chrono = { version = "0.4", features = ["serde"] }
chrono-tz = "0.10"
uuid = { version = "1", features = ["serde", "v4"] }
rust_decimal = { version = "1", features = ["serde"] }
hmac = "0.12"
sha2 = "0.10"
serde = { version = "1", features = ["derive"] }
serde_json = "1"
sqlx = { version = "0.8", default-features = false, features = ["postgres", "runtime-tokio", "chrono", "uuid", "rust_decimal", "json", "derive"] }
actix-web = { version = "4", default-features = false }
tokio = { version = "1", features = ["rt", "time"] }
tracing = "0.1"
utoipa = { version = "5", features = ["chrono", "uuid", "decimal"] }
