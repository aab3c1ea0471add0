[package]
name = "birthday_service"
version = "0.1.0"
edition = "2021"
publish = false

[dependencies]
actix-web = "*"
chrono = { version = "*", features = ["serde"] }
firestore = "*"
log = "*"
serde = { version = "*", features = ["derive"] }
serde_json = "*"
