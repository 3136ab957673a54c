[package]
name = "convolver"
version = "0.1.0"
edition = "2021"
publish = false

[dependencies]
hound = "3.5"
rustfft = "6"

[dev-dependencies]
rand = "0.8"
