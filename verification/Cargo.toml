[package]
name = "display"
version = "0.1.0"
edition = "2021"
publish = false

[dependencies]
ggez = { version = "=0.9.3", default-features = false }
log = "=0.4.34"
neat = { version = "=0.5.1", features = ["crossover", "rayon", "serde"] }
rand = "=0.8.8"
rayon = "=1.12.0"
ron = "=0.8.1"
serde = { version = "=1.0.229", features = ["derive"] }
serde_json = "=1.0.154"
