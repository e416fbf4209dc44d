[package]
name = "graphexpr"
version = "0.1.0"
edition = "2021"
publish = false

[dependencies]
fasteval = "0.2"
rayon = "1"
svg = "*"
cached = "*"
log = "*"
