[package]
name = "liferaft"
version = "0.1.0"
edition = "2021"
publish = false

[dependencies]
rand = "0.8"
actix = "0.13"
actix-web = { version = "4", default-features = false, features = ["macros"] }
awc = { version = "3", default-features = false }
futures = "0.3"
serde = { version = "1", features = ["derive"] }
serde_json = "1"
clap = { version = "4", features = ["derive"] }
dotenv = "0.15"
env_logger = "0.11"
anyhow = "1"
log = "0.4"
