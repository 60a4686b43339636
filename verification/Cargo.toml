[package]
name = "chunker"
version = "0.1.0"
edition = "2021"
publish = false

[dependencies]
tiktoken-rs = "*"
rayon = "*"
pyo3 = "*"
