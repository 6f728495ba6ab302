[package]
name = "ssh_picker"
version = "0.1.0"
edition = "2021"
publish = false

[dependencies]
anyhow = "*"
crossterm = "*"
ratatui = "*"
home = "*"
dirs = "*"
serde = { version = "*", features = ["derive"] }
toml = "*"
