[package]
name = "exploration"
version = "0.1.0"
edition = "2021"
publish = false

[dependencies]
kdl = "6"
