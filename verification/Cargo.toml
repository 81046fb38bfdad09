[package]
name = "nonogram"
version = "0.1.0"
edition = "2021"
publish = false

[dependencies]
array2d = "*"
