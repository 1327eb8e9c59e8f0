[package]
name = "raytracer"
version = "0.1.0"
edition = "2021"
publish = false

[dependencies]
rand = { version = "0.8", features = ["small_rng"] }
vek = "*"
noise = "*"
image = { version = "*", default-features = false, features = ["jpeg", "png"] }
indicatif = { version = "*", features = ["rayon"] }
rayon = "1"
