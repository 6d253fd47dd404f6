[package]
name = "eir"
version = "0.1.0"
edition = "2021"
publish = false

[dependencies]
cranelift-bforest = "=0.135.5"
