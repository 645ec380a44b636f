[package]
name = "playground"
version = "0.1.0"
edition = "2021"
publish = false

[dependencies]
bitvec = "=1.1.1"

[dev-dependencies]
num-traits = "=0.2.19"
