[package]
name = "pathtrace"
version = "0.1.0"
edition = "2021"
publish = false

[dependencies]
rand = { version = "0.8", features = ["small_rng"] }
glam = "0.24"
image = { version = "0.24", default-features = false, features = ["png", "jpeg"] }
chrono = "0.4"
threadpool = "1"
once_cell = "1"
