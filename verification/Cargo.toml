[package]
name = "tracker"
version = "0.1.0"
edition = "2021"
publish = false

[dependencies]
nalgebra = "*"
opencv = "*"
csv = "*"
serde = { version = "1", features = ["derive"] }
anyhow = "*"
log = "*"
env_logger = "*"
indicatif = "*"
plotters = "*"
