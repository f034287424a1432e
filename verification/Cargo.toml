[package]
name = "rust_game"
version = "0.1.0"
edition = "2021"
publish = false

[dependencies]
bytemuck = "=1.25.2"
glam = "=0.34.1"
serde = { version = "=1.0.229", features = ["derive"] }
serde_yaml = "=0.9.34"
log = "=0.4.34"
env_logger = "=0.11.11"
rapier3d = "=0.36.0"
