[package]
name = "pdf_rasterizer"
version = "0.1.0"
edition = "2021"
publish = false

[dependencies]
hayro = "*"
hayro-syntax = "*"
image = { version = "*", default-features = false, features = ["jpeg"] }
lopdf = "*"
rayon = "*"
seahorse = "*"
