[package]
name = "uvlift"
version = "1.1.0"
edition = "2021"
publish = false

[dependencies]
anyhow = "1"
crossterm = "*"
pep440_rs = "*"
pep508_rs = "*"
ratatui = "*"
serde = { version = "1", features = ["derive"] }
toml_edit = "*"
ureq = { version = "3", features = ["json"] }
walkdir = "2"
