[package]
name = "rays"
version = "0.1.0"
edition = "2021"
publish = false

[dependencies]
image = "*"
palette = "*"
rand = { version = "0.8", features = ["small_rng"] }
rayon = "*"
serde = { version = "1", features = ["derive"] }
serde_yaml = "*"
