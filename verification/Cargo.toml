[package]
name = "silver"
version = "0.1.0"
edition = "2021"
publish = false

[dependencies]
rand = "0.8"
rand_pcg = "0.3"
rayon = "1"
image = "0.24"
serde = { version = "1", features = ["derive"] }
serde_yaml = "0.9"
