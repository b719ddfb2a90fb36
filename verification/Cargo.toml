[package]
name = "fast_kv"
version = "0.1.0"
edition = "2021"
publish = false

[dependencies]
chaintable = "*"
pollio = "*"
rand = "*"
