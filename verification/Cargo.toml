[package]
name = "bounded_collections"
version = "0.1.0"
edition = "2021"
publish = false

[dependencies]
parity-scale-codec = { version = "*", features = ["derive", "max-encoded-len"] }
jam-codec = { version = "*", features = ["derive", "max-encoded-len"] }
scale-info = { version = "2", features = ["derive"] }
serde = { version = "1", features = ["derive"] }
serde_json = "1"
