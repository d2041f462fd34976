[package]
name = "gcv_spline"
version = "0.3.0"
edition = "2021"
publish = false

[dependencies]
num-traits = "0.2"
