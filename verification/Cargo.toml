[package]
name = "tfn_digital_identity"
version = "0.1.0"
edition = "2021"
publish = false

[dependencies]
multiversx-sc = "*"
