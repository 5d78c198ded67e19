[package]
name = "rt_impl"
version = "0.1.0"
edition = "2021"
publish = false

[dependencies]
spirv-std = "*"
glam = "*"
bytemuck = { version = "1", features = ["derive"] }
itertools = "*"
rayon = "1"
png = "*"
