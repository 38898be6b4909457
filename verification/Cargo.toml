[package]
name = "paxbot"
version = "0.1.0"
edition = "2021"
publish = false

[dependencies]
rust-fuzzy-search = "*"
serde = { version = "*", features = ["derive"] }
toml = "*"
