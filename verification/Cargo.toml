[package]
name = "cargo_backup"
version = "0.1.0"
edition = "2021"
publish = false

[dependencies]
serde = { version = "*", features = ["derive"] }
serde_json = "*"
toml = "*"
ureq = "2"
keyring = "2"
dirs = "*"
clap = "*"
dialoguer = "*"
owo-colors = "*"
