[package]
name = "pong"
version = "0.1.0"
edition = "2021"
publish = false

[dependencies]
bevy = { version = "0.17", default-features = false, features = ["std", "bevy_sprite", "bevy_window", "bevy_core_pipeline", "bevy_color"] }
