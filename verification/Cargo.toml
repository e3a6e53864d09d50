[package]
name = "siege_factory"
version = "0.1.0"
edition = "2021"
publish = false

[dependencies]
bevy = { version = "0.17", default-features = false }
serde = { version = "1", features = ["derive"] }
toml = "0.9"
