[package]
name = "gearley"
version = "0.1.0"
edition = "2021"
publish = false

[dependencies]
cfg = "*"
cfg-symbol = "*"
bit-matrix = "*"
bit-vec = "*"
serde = "*"
serde_derive = "*"
miniserde = "*"
