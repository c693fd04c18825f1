[package]
name = "todot"
version = "0.1.0"
edition = "2021"
publish = false

[dependencies]
crossterm = "*"
directories = "*"
ratatui = "*"
serde = { version = "*", features = ["derive"] }
toml = "*"
