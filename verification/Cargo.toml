[package]
name = "attendance"
version = "0.1.0"
edition = "2021"
publish = false

[dependencies]
actix-cors = "*"
actix-files = "*"
actix-rt = "2"
actix-web = "4"
chrono = "0.4"
diesel = { version = "2", features = ["sqlite", "r2d2"] }
dotenv = "0.15"
env_logger = "*"
log = "0.4"
r2d2 = "*"
serde = { version = "1", features = ["derive"] }
