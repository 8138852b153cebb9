[package]
name = "rust_invaders"
version = "0.1.0"
edition = "2021"
publish = false

[dependencies]
bevy = { version = "=0.5.0", default-features = false, features = ["render", "bevy_wgpu", "bevy_winit", "png", "x11"] }
spirv-std-macros = "=0.4.0"
