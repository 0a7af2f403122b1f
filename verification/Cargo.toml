[package]
name = "rootrat"
version = "0.1.0"
edition = "2021"
publish = false

[dependencies]
anyhow = "1"
clap = { version = "4", features = ["derive"] }
dirs = "5"
ignore = "0.4"
serde = { version = "1", features = ["derive"] }
similar = "2"
toml = "0.8"

[dev-dependencies]
tempfile = "3"
