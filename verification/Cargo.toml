[package]
name = "twitter2obsidian"
version = "0.1.0"
edition = "2021"
publish = false

[dependencies]
chrono = "*"
serde_json = "*"
serde = { version = "*", features = ["derive"] }
handlebars = "*"
clap = { version = "*", features = ["derive"] }
env_logger = "*"
log = "*"
