[package]
name = "raytracer"
version = "0.1.0"
edition = "2021"
publish = false

[dependencies]
clap = { version = "4", features = ["derive"] }
derivative = "2"
image = { version = "0.24", default-features = false, features = ["png", "jpeg"] }
indicatif = { version = "0.17", features = ["rayon"] }
itertools = "0.12"
rayon = "1"
serde = { version = "1", features = ["derive"] }
serde_json = "1"
tobj = "4"
typetag = "0.2"
