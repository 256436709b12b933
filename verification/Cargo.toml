[package]
name = "birthday"
version = "0.1.0"
edition = "2021"
publish = false

[dependencies]
chrono = "0.4"
serde = { version = "1", features = ["derive"] }
serde_json = "1"
actix-web = "4"
actix-cors = "*"
sqlx = { version = "0.8", default-features = false, features = ["runtime-tokio", "postgres"] }
