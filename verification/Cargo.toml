[package]
name = "sunminimart_server"
version = "0.1.0"
edition = "2021"
publish = false

[dependencies]
axum = "*"
serde = { version = "*", features = ["derive"] }
sqlx = { version = "*", default-features = false, features = ["runtime-tokio", "mysql", "chrono", "bigdecimal"] }
tokio = { version = "*", features = ["macros", "rt-multi-thread", "net", "sync"] }
dotenv = "*"
bigdecimal = { version = "*", features = ["serde"] }
