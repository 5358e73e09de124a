[package]
name = "brush"
version = "0.1.0"
edition = "2021"
publish = false

[dependencies]
anyhow = "=1.0.104"
bytemuck = { version = "=1.25.2", features = ["derive"] }
clap = { version = "=4.6.7", features = ["derive"] }
eframe = { version = "=0.34.3", default-features = false, features = ["wgpu", "x11", "persistence"] }
egui_tiles = { version = "=0.15.0", features = ["serde"] }
env_logger = "*"
glam = "=0.34.2"
gltf = "=1.4.1"
humantime = "=2.4.0"
image = { version = "=0.25.10", default-features = false, features = ["png"] }
indicatif = "=0.18.6"
indicatif-log-bridge = "*"
log = "0.4"
mikktspace = "=0.3.0"
serde = { version = "1", features = ["derive"] }
serde_json = "=1.0.154"
tokio = { version = "=1.54.1", features = ["rt-multi-thread", "sync", "macros", "fs"] }
tracing = "0.1"
web-time = "1"
wgpu = { version = "=29.0.4", default-features = false, features = ["std", "wgsl"] }
