[package]
name = "conjure_visualizer"
version = "0.1.0"
edition = "2021"
publish = false

[dependencies]
anyhow = "*"
rusttype = "*"
