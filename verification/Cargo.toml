[package]
name = "genetic_algorithm_rust"
version = "0.1.0"
edition = "2021"
publish = false

[dependencies]
rand = "0.8"
