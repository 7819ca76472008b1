[package]
name = "niels1020_graphics_engine"
version = "0.1.0"
edition = "2021"
publish = false

[dependencies]
bytemuck = { version = "*", features = ["derive"] }
cgmath = "*"
cosmic-text = "*"
image = { version = "*", default-features = false, features = ["png"] }
nalgebra = "*"
pollster = "*"
wgpu = "*"
winit = "*"
