[package]
name = "ockam_multiaddr"
version = "0.1.0"
edition = "2021"
publish = false

[dependencies]
tinyvec = { version = "1", features = ["alloc"] }
once_cell = { version = "1", features = ["race", "alloc"] }
serde = { version = "1", features = ["derive"] }
ockam_core = "*"
