[package]
name = "fringe"
version = "0.1.0"
edition = "2021"
publish = false

[dependencies]
rand = "0.9"
rand_chacha = "0.9"
num-complex = { version = "0.4", features = ["bytemuck"] }
rustfft = "6"
serde = { version = "1", features = ["derive"] }
serde_json = "1"
csv = "1"
clap = { version = "4", features = ["derive"] }
bytemuck = { version = "1", features = ["derive"] }
pollster = "0.4"
wgpu = "*"
pyo3 = "*"
hdf5 = "*"
