[package]
name = "botcore"
version = "0.1.0"
edition = "2021"
publish = false

[dependencies]
regex = "1"
chrono = "0.4"
chrono-tz = "0.10"
serde = { version = "1", features = ["derive"] }
toml = "0.8"
