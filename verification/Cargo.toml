[package]
name = "bevy_tag"
version = "0.1.0"
edition = "2021"
publish = false

[dependencies]
bevy = { version = "=0.16.1", default-features = false }
serde = { version = "=1.0.229", features = ["derive"] }
toml = "=1.1.8"
zerocopy = "=0.8.63"
