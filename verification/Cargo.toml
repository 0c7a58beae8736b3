[package]
name = "asciinema"
version = "0.1.0"
edition = "2021"
publish = false

[dependencies]
anyhow = "=1.0.104"
avt = "=0.19.0"
clap = { version = "=4.6.7", features = ["derive"] }
rand = "0.9"
serde = { version = "=1.0.229", features = ["derive"] }
serde_json = "=1.0.154"
url = "2"
