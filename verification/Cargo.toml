[package]
name = "rhd"
version = "0.1.0"
edition = "2021"
publish = false

[dependencies]
url = "2"
clap = "2"
cli-grid = "*"
config = "0.11"
postgres = "0.19"
serde = { version = "1", features = ["derive"] }
