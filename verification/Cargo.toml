[package]
name = "authenticated_ledger"
version = "0.1.0"
edition = "2021"
publish = false

[dependencies]
ark-crypto-primitives = "=0.3.0"
ark-ed-on-bls12-381 = "=0.3.0"
ark-ff = "=0.3.0"
ark-std = "=0.3.0"
ark-ec = "=0.3.0"
blake2 = "0.9"
