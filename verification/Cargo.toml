[package]
name = "vertex_clustering"
version = "0.1.0"
edition = "2021"
publish = false

[dependencies]
log = "*"
rita = "*"
serde = { version = "*", features = ["derive"] }
uuid = { version = "*", features = ["v4"] }
