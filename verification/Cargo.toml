[package]
name = "typing_engine"
version = "0.1.0"
edition = "2021"
publish = false

[dependencies]
rand = "0.8"
ratatui = "0.29"
serde = { version = "1", features = ["derive"] }
toml = "0.8"
bzip2 = "*"
