[package]
name = "raytracer"
version = "0.1.0"
edition = "2021"
publish = false

[dependencies]
rand = "=0.8.8"
image = "=0.24.9"
futures = { version = "=0.3.34", features = ["thread-pool"] }
crossbeam = "=0.8.5"
serde = { version = "=1.0.229", features = ["derive"] }
bincode = "=1.3.3"
glam = "=0.24.2"
rand_pcg = "=0.3.1"
