[package]
name = "hexseg"
version = "0.1.0"
edition = "2021"
publish = false

[dependencies]
clap = { version = "*", features = ["derive"] }
csv = "*"
flate2 = "*"
ndarray = "*"
rayon = "*"
