[package]
name = "bitonic_sorter"
version = "0.1.0"
edition = "2021"
publish = false

[dependencies]
rand = "*"
rand_pcg = "*"
rayon = "*"
