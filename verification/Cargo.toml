[package]
name = "ray_tracer"
version = "0.1.0"
edition = "2021"
publish = false

[dependencies]
rand = "0.8"
glam = "*"
rayon = "*"
indicatif = "*"
serde = { version = "*", features = ["derive"] }
serde_yaml = "*"
