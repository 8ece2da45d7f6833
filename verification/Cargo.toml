[package]
name = "nn_engine"
version = "0.1.0"
edition = "2021"
publish = false

[dependencies]
safetensors = "0.4"
serde = { version = "1", features = ["derive"] }
serde_json = "1"
bincode = "1"
thiserror = "1"
rand = "0.8"
rand_distr = "0.4"
rayon = "1"
bytemuck = "1"
pollster = "0.3"
wgpu = "0.20"
