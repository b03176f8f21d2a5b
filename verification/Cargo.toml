[package]
name = "rusty_counter"
version = "0.1.0"
edition = "2021"
publish = false

[dependencies]
dotenv = "*"
env_logger = "*"
log = "0.4"
serde = { version = "1", features = ["derive"] }
