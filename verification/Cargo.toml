[package]
name = "oyo"
version = "0.1.0"
edition = "2021"
publish = false

[dependencies]
serde = { version = "1", features = ["derive"] }
toml = "*"
dirs = "*"
ignore = "*"
regex = "1"
