[package]
name = "saamt"
version = "0.1.0"
edition = "2021"
publish = false

[dependencies]
anyhow = "*"
clap = { version = "*", features = ["derive"] }
hound = "*"
serde = { version = "*", features = ["derive"] }
serde_json = "*"
walkdir = "*"
