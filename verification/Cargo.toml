[package]
name = "erlcuda"
version = "0.1.0"
edition = "2021"
publish = false

[dependencies]
cuda_std = "*"
cust = "*"
rustler = "*"
