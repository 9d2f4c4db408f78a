[package]
name = "surreal_core"
version = "0.1.0"
edition = "2021"
publish = false

[dependencies]
nom = "7.1.3"
serde = { version = "1.0", features = ["derive"] }
