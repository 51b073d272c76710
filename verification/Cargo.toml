[package]
name = "cleanax"
version = "0.1.0"
edition = "2021"
publish = false

[dependencies]
image = "0.23"
indicatif = "0.17"
num = "0.4"
pyo3 = { version = "0.20", features = ["extension-module"] }
rayon = "1"
