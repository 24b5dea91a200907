[package]
name = "wave_function_collapse"
version = "0.1.0"
edition = "2021"
publish = false

[dependencies]
imgproc-rs = "*"
rand = "0.8"
