[package]
name = "gumbel_estimation"
version = "0.1.0"
edition = "2021"
publish = false

[dependencies]
ahash = "0.8"
bitvec = "1"
hyperloglogplus = "*"
itertools = "*"
rand = "0.8"
