[package]
name = "jumper"
version = "0.1.0"
edition = "2021"
publish = false

[dependencies]
anyhow = "=1.0.104"
arboard = "=3.6.1"
crossterm = "=0.28.1"
directories = "=5.0.1"
fs_extra = "=1.3.0"
fuzzy-matcher = "=0.3.7"
open = "=5.4.4"
ratatui = { version = "=0.29.0", features = ["serde"] }
serde = { version = "=1.0.229", features = ["derive"] }
tokio = { version = "=1.53.2", features = ["full"] }
toml = "=0.8.23"
