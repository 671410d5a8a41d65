[package]
name = "ptm"
version = "0.1.0"
edition = "2021"
publish = false

[dependencies]
bitflags = "2"
