[package]
name = "voxel_engine"
version = "0.1.0"
edition = "2021"
publish = false

[dependencies]
argon2 = { version = "=0.5.3", features = ["std"] }
serde = { version = "=1.0.229", features = ["derive"] }
serde_json = "=1.0.154"
bincode = "=1.3.3"
message-io = { version = "=0.19.0", default-features = false, features = ["tcp", "udp"] }
colored = "=3.1.1"
nalgebra = "*"
instant = "0.1"
