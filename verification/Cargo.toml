[package]
name = "misarta"
version = "0.1.0"
edition = "2021"
publish = false

[dependencies]
nalgebra = "0.33"
parry3d-f64 = "0.17"
roxmltree = "0.20"
serde = { version = "1", features = ["derive"] }
toml = "0.8"
