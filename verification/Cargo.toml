[package]
name = "topic_queue"
version = "0.1.0"
edition = "2021"
publish = false

[dependencies]
chrono = "0.4"
color-eyre = "*"
cron = "*"
dotenv = "*"
reqwest = { version = "*", default-features = false, features = ["json"] }
rocket = "0.5"
serde = { version = "1", features = ["derive"] }
serde_json = "1"
