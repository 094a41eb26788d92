[package]
name = "neli_wifi"
version = "0.6.0"
edition = "2021"
publish = false

[dependencies]
neli = "0.6"
