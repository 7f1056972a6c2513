[package]
name = "crossflow"
version = "0.1.0"
edition = "2021"
publish = false

[dependencies]
bevy_ecs = "*"
serde = { version = "1", features = ["derive"] }
serde_json = "1"
smallvec = "1"
