[package]
name = "service_station"
version = "0.1.0"
edition = "2021"
publish = false

[dependencies]
bcrypt = "0.19"
chrono = "0.4"
dotenv = "0.15"
once_cell = "1"
serde = { version = "1", features = ["derive"] }
serde_json = "1"
sqlx = { version = "0.8", default-features = false, features = ["runtime-tokio", "postgres", "bigdecimal", "chrono"] }
url = "2"
uuid = { version = "1", features = ["v4"] }
