[package]
name = "importee"
version = "0.1.0"
edition = "2021"
publish = false

[dependencies]
blake3 = { version = "=1.8.7", features = ["pure"] }
dashmap = "=6.2.1"
pyo3 = { version = "=0.30.1", features = ["abi3"] }
rayon = "=1.12.0"
rustpython-ast = "=0.4.0"
rustpython-parser = "=0.4.0"
serde = { version = "=1.0.229", features = ["derive"] }
serde_json = "=1.0.154"

[dev-dependencies]
tempfile = "3"
