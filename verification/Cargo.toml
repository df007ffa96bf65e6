[package]
name = "density_mesh"
version = "0.1.0"
edition = "2021"
publish = false

[dependencies]
triangulation = "*"
clap = { version = "*", features = ["derive"] }
image = "*"
obj-exporter = "*"
serde = { version = "*", features = ["derive"] }
serde_json = "*"
serde_yaml = "*"
strum = { version = "*", features = ["derive"] }
