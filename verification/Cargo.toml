[package]
name = "treasury"
version = "0.1.0"
edition = "2021"
publish = false

[dependencies]
anchor-lang = "0.30.1"
num-integer = "0.1"
