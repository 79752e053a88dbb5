[package]
name = "hash_tree"
version = "0.1.0"
edition = "2021"
publish = false

[dependencies]
tiny-keccak = { version = "=2.0.2", features = ["keccak"] }
plonky2 = "=0.2.2"
sp1-zkvm = "=6.10.0"
alloy-sol-types = "=1.7.3"
