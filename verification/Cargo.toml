[package]
name = "pixel_renderer"
version = "0.1.0"
edition = "2021"
publish = false

[dependencies]
glam = "*"
palette = "*"
radians = "*"
