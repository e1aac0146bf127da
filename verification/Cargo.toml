[package]
name = "blades"
version = "0.1.0"
edition = "2021"
publish = false

[dependencies]
ramhorns = "*"
serde = { version = "*", features = ["derive"] }
serde_json = "*"
toml = "*"
chrono = "*"
pulldown-cmark = "*"
cmark-syntax = "*"
