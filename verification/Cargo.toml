[package]
name = "world_scene"
version = "0.1.0"
edition = "2021"
publish = false

[dependencies]
byteorder = "1"
slab = "0.4"
glam = "*"
tracing = "0.1"
ahash = "0.8"
bitflags = "2"
bytemuck = { version = "1", features = ["derive"] }
