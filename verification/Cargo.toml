[package]
name = "card_game"
version = "0.1.0"
edition = "2021"
publish = false

[dependencies]
hex = "=0.4.3"
rand = { version = "=0.8.8", features = ["small_rng"] }
schnorrkel = "=0.11.5"
sha2 = "=0.10.9"
sp-crypto-hashing = "0.1.0"
