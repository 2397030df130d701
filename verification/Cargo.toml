[package]
name = "archelon"
version = "0.1.0"
edition = "2021"
publish = false

[dependencies]
anyhow = "1"
caretta-id = "*"
chrono = "0.4"
clap = { version = "4", features = ["derive"] }
rusqlite = "*"
serde = { version = "1", features = ["derive"] }
serde_json = "1"
serde_yaml = "0.9"
tempfile = "3"
toml = "*"
