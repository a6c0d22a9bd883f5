[package]
name = "chunk_render"
version = "0.1.0"
edition = "2021"
publish = false

[dependencies]
rayon = "1"
rustc-hash = "1.1.0"
string_wizard = "*"
