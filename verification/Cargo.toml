[package]
name = "rusttracer"
version = "0.1.0"
edition = "2021"
publish = false

[dependencies]
cgmath = "*"
chan = "0.1"
image = { version = "*", default-features = false }
piston_window = "*"
time = "0.1"
