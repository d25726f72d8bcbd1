[package]
name = "repame"
version = "0.1.0"
edition = "2021"
publish = false

[dependencies]
anyhow = "=1.0.104"
bevy_ecs = { version = "=0.18.1", default-features = false, features = ["std"] }
bytemuck = { version = "=1.25.2", features = ["derive"] }
glam = "=0.30.10"
log = "=0.4.35"
noise = "=0.9.0"
rand = "=0.10.3"
rapier2d = "=0.32.0"
rapier3d = "=0.32.0"
repose-canvas = "=0.30.22"
repose-core = "=0.30.22"
repose-ui = "=0.30.22"
serde = { version = "=1.0.229", features = ["derive"] }
serde_json = "=1.0.154"
symphonia = { version = "=0.6.1", features = ["all"] }
web-time = "=1.1.0"
web-workers = "=0.3.7"
wgpu = "=30.0.1"
