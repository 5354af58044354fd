[package]
name = "vefem"
version = "0.1.0"
edition = "2021"
publish = false

[dependencies]
nalgebra = "0.33"
serde = { version = "1", features = ["derive"] }
serde_json = "1"
serde_repr = "0.1"
