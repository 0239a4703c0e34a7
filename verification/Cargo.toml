[package]
name = "ciso_rs"
version = "0.1.0"
edition = "2021"
publish = false

[dependencies]
flate2 = "1"
memmap2 = "0.9"
num_cpus = "1"
parking_lot = "0.12"

[dev-dependencies]
getrandom = "0.3"
