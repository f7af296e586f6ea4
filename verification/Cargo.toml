[package]
name = "tuna"
version = "0.1.0"
edition = "2021"
publish = false

[dependencies]
num-integer = "=0.1.47"
png = "=0.18.1"
sdl2 = { version = "=0.38.0", default-features = false }
