[package]
name = "rural"
version = "0.1.0"
edition = "2021"
publish = false

[dependencies]

[dev-dependencies]
rand_core = "0.6"
rand_distr = "0.4"
rand_xoshiro = "0.6"
