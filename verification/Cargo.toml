[package]
name = "kglite"
version = "0.1.0"
edition = "2021"
publish = false

[dependencies]
petgraph = "*"
rustc-hash = "2"
serde = { version = "1", features = ["derive"] }
