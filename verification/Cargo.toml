[package]
name = "raytrace"
version = "0.1.0"
edition = "2021"
publish = false

[dependencies]
image = { version = "0.25", default-features = false, features = ["png"] }
nalgebra = "0.33"
rayon = "1"
indicatif = { version = "0.17", features = ["rayon"] }
