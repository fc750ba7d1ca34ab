[package]
name = "scene_viewer"
version = "0.1.0"
edition = "2021"
publish = false

[dependencies]
anyhow = "=1.0.104"
bytemuck = "=1.25.2"
cgmath = "=0.18.0"
glam = "=0.22.0"
iced = "=0.7.0"
iced_wgpu = { version = "=0.8.0", features = ["spirv"] }
iced_winit = "=0.7.0"
image = "=0.24.9"
log = "=0.4.34"
ordered-float = "=3.9.2"
shaderc = "=0.8.3"
tobj = "=3.2.5"
