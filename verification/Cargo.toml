[package]
name = "raytracing"
version = "0.1.0"
edition = "2021"
publish = false

[dependencies]
anyhow = "1"
image = "0.24"
rand = "0.8"
rayon = "1"
