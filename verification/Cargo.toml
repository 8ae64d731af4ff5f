[package]
name = "stl_slicer"
version = "0.1.0"
edition = "2021"
publish = false

[dependencies]
byteorder = "*"
rayon = "*"
