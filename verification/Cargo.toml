[package]
name = "taproot_descriptor"
version = "0.1.0"
edition = "2021"
publish = false

[dependencies]
elements = "0.21"
