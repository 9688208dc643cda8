[package]
name = "rh3t"
version = "0.1.0"
edition = "2021"
publish = false

[dependencies]
nalgebra = "*"
ndarray = "*"
ndarray-linalg = { version = "*", default-features = false }
rayon = "*"
