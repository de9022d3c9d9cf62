[package]
name = "nodes"
version = "0.1.0"
edition = "2021"
publish = false

[dependencies]
rusqlite = { version = "*", features = ["bundled"] }
termion = "*"
toml = "*"
clap = "*"
dirs = "*"
tempfile = "*"
scopeguard = "*"
