[package]
name = "daily_recap"
version = "0.1.0"
edition = "2021"
publish = false

[dependencies]
serde_json = "*"
chrono = "*"
tracing = "*"
tokio = { version = "*", default-features = false, features = ["rt", "time", "macros"] }
reqwest = { version = "*", default-features = false, features = ["json"] }
sqlx = { version = "*", default-features = false, features = ["sqlite", "runtime-tokio"] }
