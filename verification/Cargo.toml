[package]
name = "engine_schematic"
version = "0.1.0"
edition = "2021"
publish = false

[dependencies]
array2d = "*"
