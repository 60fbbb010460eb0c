[package]
name = "tower_defense"
version = "0.1.0"
edition = "2021"
publish = false

[dependencies]
bevy = { version = "0.16", default-features = false, features = ["std"] }
rand = "0.9"
serde = { version = "1", features = ["derive"] }
serde_json = "1"
