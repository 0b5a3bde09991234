[package]
name = "drink_list"
version = "0.1.0"
edition = "2021"
publish = false

[dependencies]
regex = "1"
chrono = { version = "0.4", features = ["serde"] }
uom = "*"
serde = { version = "1", features = ["derive"] }
diesel = { version = "2", features = ["postgres", "chrono", "r2d2"] }
dotenv = "0.15"
actix-web = "4"
actix-cors = "*"
actix-rt = "2"
futures = "0.3"
env_logger = "*"
log = "0.4"
