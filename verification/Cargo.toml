[package]
name = "dead_pulsar"
version = "0.1.0"
edition = "2021"
publish = false

[dependencies]
rand = "=0.7.3"
mint = "=0.5.9"
nalgebra = "0.32"
