[package]
name = "threadstore"
version = "0.1.0"
edition = "2021"
publish = false

[dependencies]
sled = "*"
chrono = "*"
serde = { version = "*", features = ["derive"] }
serde_json = "*"
actix-web = "*"
actix-files = "*"
actix-multipart = "*"
futures-util = "*"
uuid = { version = "*", features = ["v4"] }
env_logger = "*"
log = "*"
