[package]
name = "trimangees"
version = "0.1.0"
edition = "2021"
publish = false

[dependencies]
ab_glyph = "0.2"
pixels = "0.15"
winit = "0.30"
