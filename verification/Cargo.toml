[package]
name = "neural_engine"
version = "0.1.0"
edition = "2021"
publish = false

[dependencies]
ndarray = "0.16"
rand = "0.9"
rand_distr = "0.5"
pyo3 = "0.23"
numpy = "0.23"
