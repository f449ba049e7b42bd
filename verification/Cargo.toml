[package]
name = "screenmix"
version = "0.1.0"
edition = "2021"
publish = false

[dependencies]
image = "*"
palette = "*"
wassily = "*"
fastrand = "*"
rayon = "*"
serde = { version = "*", features = ["derive"] }
serde_json = "*"
egui = "*"
