[package]
name = "boxflow"
version = "0.1.0"
edition = "2021"
publish = false

[dependencies]
serde = { version = "*", features = ["derive"] }
serde_json = "*"
winit = "*"
softbuffer = "*"
skia-safe = "*"
