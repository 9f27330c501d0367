[package]
name = "fast_image_resize"
version = "0.1.0"
edition = "2021"

[dependencies]
rayon = "1"
