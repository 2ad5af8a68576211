[package]
name = "utxo_wallet"
version = "0.1.0"
edition = "2021"
publish = false

[dependencies]
secp256k1 = "0.29"
sha2 = "0.10"
ripemd = "0.1"
rand = "0.8"
text_io = "0.1"
