[package]
name = "sane"
version = "0.1.0"
edition = "2021"
publish = false

[dependencies]
rustc-hash = "2"
num-traits = "0.2"
num-complex = "0.4"
libloading = "0.8"
