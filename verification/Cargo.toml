[package]
name = "nova"
version = "0.1.0"
edition = "2021"
publish = false

[dependencies]
bevy = { version = "0.15", default-features = false, features = ["bevy_pbr", "bevy_window"] }
bevy_rapier3d = { version = "0.28", default-features = false, features = ["dim3", "debug-render-3d"] }
noise = "0.9"
serde = { version = "1", features = ["derive"] }
serde_json = "1"
