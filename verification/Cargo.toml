[package]
name = "mango_v4"
version = "0.1.0"
edition = "2021"
publish = false

[dependencies]
anchor-lang = "=0.31.2"
anchor-spl = "=0.31.2"
anyhow = "=1.0.104"
solana-account-decoder = "2.3.13"
solana-sdk = "2.3.1"
