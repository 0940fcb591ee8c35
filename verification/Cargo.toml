[package]
name = "invaders"
version = "0.1.0"
edition = "2021"
publish = false

[dependencies]
bevy = { version = "=0.5.0", default-features = false, features = ["bevy_wgpu", "bevy_winit", "render", "png", "x11"] }
# Never called. bevy 0.5's derive crates need syn's `full` feature without
# asking for it; darling's macro crate asks for it on the build host.
darling = "=0.10.2"
