[package]
name = "kantig"
version = "0.1.0"
edition = "2021"
publish = false

[dependencies]
image = "0.23"
imageproc = "0.22"
rand = { version = "0.7", features = ["small_rng"] }
rtriangulate = "*"
structopt = "0.3"
thiserror = "1"
