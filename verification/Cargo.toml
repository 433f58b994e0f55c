[package]
name = "raycaster"
version = "0.1.0"
edition = "2021"
publish = false

[dependencies]
image = { version = "=0.24.9", default-features = false, features = ["png"] }
anyhow = "=1.0.104"
log = "=0.4.34"
env_logger = { version = "=0.10.2", default-features = false }
serde = { version = "=1.0.229", features = ["derive"] }
serde_json = "=1.0.151"
winit = { version = "=0.28.7", default-features = false, features = ["x11"] }
rodio = { version = "=0.17.3", default-features = false, features = ["vorbis", "wav"] }
