[package]
name = "dlc_venc_pairing"
version = "0.1.0"
edition = "2021"
publish = false

[dependencies]
anyhow = "1"
bincode = { version = "2", features = ["serde"] }
bls12_381 = { version = "0.7", features = ["experimental"] }
clap = { version = "3", features = ["derive"] }
ff = "0.12"
group = "0.12"
rand = "0.8"
rand_chacha = "0.3"
secp256k1-zkp = "0.7"
secp256kfun = { version = "0.7", features = ["serde"] }
serde = { version = "1", features = ["derive"] }
sha2 = "0.9"
sigma_fun = "0.4"
