[package]
name = "image_server"
version = "0.1.0"
edition = "2021"
publish = false

[dependencies]
actix-web = "4"
clap = { version = "4", features = ["derive"] }
env_logger = "0.10"
image = "0.24"
rand = "0.8"
serde = { version = "1", features = ["derive"] }
shellexpand = "3"
walkdir = "2"
