[package]
name = "hex_tiler"
version = "0.1.0"
edition = "2021"
publish = false

[dependencies]
hexx = "*"
bevy = { version = "*", default-features = false, features = ["bevy_pbr", "bevy_winit", "x11"] }
bevy_panorbit_camera = "*"
