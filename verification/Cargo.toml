[package]
name = "gridded_automata"
version = "0.1.0"
edition = "2021"
publish = false

[dependencies]
rand = "0.8"
image = "0.24"
anyhow = "1"
bytemuck = { version = "1", features = ["derive"] }
cgmath = "0.18"
pollster = "0.2"
wgpu = "0.13"
winit = "0.26"
