[package]
name = "raytracer"
version = "0.1.0"
edition = "2021"
publish = false

[dependencies]
anyhow = "1"
enum_dispatch = "0.3"
image = { version = "0.24", default-features = false, features = ["bmp"] }
indicatif = "0.17"
itertools = "0.12"
nalgebra = "0.32"
num_cpus = "1"
rand = "0.8"
toml = "0.8"
wavefront_obj = "10"
