[package]
name = "hoard"
version = "0.1.0"
edition = "2021"
publish = false

[dependencies]
eyre = "*"
ratatui = { version = "*", default-features = false, features = ["termion"] }
termion = "*"
