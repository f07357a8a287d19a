[package]
name = "gridpath"
version = "0.1.0"
edition = "2021"
publish = false

[dependencies]
pathfinding = "*"
pyo3 = { version = "*", features = ["extension-module", "abi3-py39"] }
