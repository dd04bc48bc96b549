[package]
name = "arena_sim"
version = "0.1.0"
edition = "2021"
publish = false

[dependencies]
bevy = { version = "0.17", default-features = false, features = ["std", "bevy_state", "bevy_log", "bevy_window"] }
rand = "0.9"
serde = { version = "1", features = ["derive"] }
serde_json = "1"
