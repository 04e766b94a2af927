[package]
name = "vj_kernel"
version = "0.1.0"
edition = "2021"
publish = false

[dependencies]
rand = "0.8"
ndarray = { version = "0.15", features = ["rayon"] }
atomic_float = "1"
