[package]
name = "merkle_tree"
version = "0.1.0"
edition = "2021"
publish = false

[dependencies]
hex = "0.4"
solana-program = { version = "2", default-features = false }
