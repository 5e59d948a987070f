[package]
name = "fractal_tiles"
version = "0.1.0"
edition = "2021"
publish = false

[dependencies]
png = "0.16"
rand = "0.7"
