[package]
name = "apollo"
version = "0.1.0"
edition = "2021"
publish = false

[dependencies]
wgpu = "24"
pollster = "0.4"
bytemuck = { version = "1", features = ["derive"] }
serde = { version = "1", features = ["derive"] }
