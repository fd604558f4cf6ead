[package]
name = "imaged"
version = "0.1.0"
edition = "2021"
publish = false

[dependencies]
num_cpus = "=1.17.0"
thiserror = "=1.0.69"
rayon = "=1.12.0"
