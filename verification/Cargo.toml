[package]
name = "rustcode"
version = "0.1.0"
edition = "2021"
publish = false

[dependencies]
rlibc = "1"
