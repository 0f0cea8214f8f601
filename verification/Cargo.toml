[package]
name = "decentralized-root-of-trust"
version = "0.1.0"
edition = "2021"
publish = false

[dependencies]
sha3 = "*"
blake2 = "*"
ethereum_ssz = "*"
typenum = "*"
ml-dsa = "*"
getrandom = { version = "0.4", features = ["sys_rng"] }
rand = "0.10"
serde_json = "1"
serde_jcs = "*"
