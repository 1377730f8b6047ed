[package]
name = "level_generator"
version = "0.1.0"
edition = "2021"
publish = false

[dependencies]
voronator = "=0.2.1"
rand = { version = "=0.8.8", features = ["small_rng"] }
