[package]
name = "grid_judge"
version = "0.1.0"
edition = "2021"
publish = false

[dependencies]
itertools = "*"
proconio = "0.4"
rand = "0.8"
rand_chacha = "0.3"
svg = "*"
