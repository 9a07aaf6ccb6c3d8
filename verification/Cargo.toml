[package]
name = "geom_primitives"
version = "0.1.0"
edition = "2021"
publish = false

[dependencies]
cgmath = "*"
serde = { version = "*", features = ["derive"] }
