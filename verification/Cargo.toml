[package]
name = "schnorr_dalek"
version = "0.1.0"
edition = "2021"
publish = false

[dependencies]
curve25519-dalek = "3.2"

[dev-dependencies]
rand = "0.8"
