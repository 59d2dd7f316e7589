[package]
name = "row_store"
version = "0.1.0"
edition = "2021"
publish = false

[dependencies]
cfonts = "1"
colored = "2"
