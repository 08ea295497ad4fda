[package]
name = "sentil"
version = "0.1.0"
edition = "2021"
publish = false

[dependencies]
wgpu = "=25.0.2"
pollster = "=0.4.0"
thiserror = "=2.0.21"
naga = { version = "=25.0.1", features = ["wgsl-in"] }
