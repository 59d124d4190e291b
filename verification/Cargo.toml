[package]
name = "rustvox"
version = "0.1.0"
edition = "2021"
publish = false

[dependencies]
bytemuck = "=1.25.2"
crossbeam = "=0.8.5"
crossbeam-channel = "=0.5.17"
egui = "=0.37.0"
egui_glow = { version = "=0.37.0", features = ["winit"] }
glam = "=0.34.1"
glow = "=0.17.0"
glutin = "=0.32.3"
png = "=0.18.1"
winit = "=0.30.13"
