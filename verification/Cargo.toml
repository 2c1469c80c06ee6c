[package]
name = "engvis"
version = "0.1.5"
edition = "2021"
publish = false

[dependencies]
glam = "*"
serde = { version = "1", features = ["derive"] }
tobj = "*"
stl_io = "*"
ply-rs-bw = "*"
rayon = "1"
rustc-hash = "*"
bytemuck = { version = "1", features = ["derive"] }
fidget-core = "*"
fidget-jit = "*"
fidget-mesh = "*"
fidget-rhai = "*"
