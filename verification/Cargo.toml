[package]
name = "fract"
version = "0.1.0"
edition = "2021"
publish = false

[dependencies]
num = "0.4"
num_cpus = "1"
rustbox = "0.11"
time = "0.1"
