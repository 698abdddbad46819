[package]
name = "weld"
version = "0.1.0"
edition = "2021"
publish = false

[dependencies]
similar = "2"
ratatui = "0.29"
crossterm = "0.28"
clap = { version = "4", features = ["derive"] }
serde = { version = "1", features = ["derive"] }
toml = "0.8"
dirs = "6"
