[package]
name = "shader_interp"
version = "0.1.0"
edition = "2021"
publish = false

[dependencies]
anyhow = "1"
clap = { version = "4", features = ["derive"] }
naga = { version = "*", features = ["wgsl-in"] }
