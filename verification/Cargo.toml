[package]
name = "nbody_sim"
version = "0.1.0"
edition = "2021"
publish = false

[dependencies]
rayon = "1"
cgmath = "0.18"
bytemuck = { version = "1", features = ["derive"] }
winit = { version = "0.29", default-features = false, features = ["rwh_06", "x11"] }
tokio = { version = "1", default-features = false, features = ["rt-multi-thread", "macros"] }
env_logger = { version = "0.11", default-features = false }
