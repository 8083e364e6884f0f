[package]
name = "ethereal_usd"
version = "0.1.0"
edition = "2021"
publish = false

[dependencies]
scrypto = "*"
