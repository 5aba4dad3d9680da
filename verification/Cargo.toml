[package]
name = "voxels"
version = "0.1.0"
edition = "2021"
publish = false

[dependencies]
anyhow = "1"
bytemuck = { version = "1", features = ["derive"] }
cgmath = "0.18"
env_logger = "0.11"
instant = "0.1"
log = "0.4"
nalgebra = "0.33"
noise = "0.9"
pollster = "0.4"
rand = "0.9"
tobj = "4"
wgpu = "*"
winit = "0.30"
