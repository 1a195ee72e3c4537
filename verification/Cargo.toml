[package]
name = "tangerine"
version = "0.1.0"
edition = "2021"
publish = false

[dependencies]
hashbrown = "*"
image = "*"
wgpu = "*"
winit = "*"
pollster = "*"
bytemuck = "*"
chrono = "*"
cint = "*"
mint = "*"
smallvec = "*"
