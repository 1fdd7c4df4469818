[package]
name = "raytrace_tiles"
version = "0.1.0"
edition = "2021"
publish = false

[dependencies]
bytemuck = { version = "=1.25.2", features = ["derive"] }
image = { version = "=0.25.10", default-features = false, features = ["png"] }
pollster = "=0.3.0"
wgpu = { version = "=22.1.0", default-features = false, features = ["wgsl"] }
