[package]
name = "cuscuta"
version = "0.1.0"
edition = "2021"
publish = false

[dependencies]
rand = "=0.8.8"
serde = { version = "=1.0.229", features = ["derive"] }
flexbuffers = "=2.0.0"
bevy_math = { version = "=0.14.2", features = ["serialize"] }
bevy_transform = { version = "=0.14.2", features = ["serialize"] }
