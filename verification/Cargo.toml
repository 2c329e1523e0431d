[package]
name = "solina"
version = "0.1.0"
edition = "2021"
publish = false

[dependencies]
libsecp256k1 = "=0.7.2"
secp256k1 = { version = "=0.27.0", features = ["rand-std", "bitcoin-hashes-std"] }
keccak-hash = "=0.10.0"
num-bigint = "=0.4.8"
hex = "=0.4.3"
rand = "=0.8.8"
