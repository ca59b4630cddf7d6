[package]
name = "box_blur"
version = "0.1.0"
edition = "2021"
publish = false

[dependencies]
num_cpus = "*"
image = { version = "*", default-features = false, features = ["jpeg"] }
