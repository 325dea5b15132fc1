[package]
name = "ckb_bitcoin_spv_type_lock"
version = "0.1.0"
edition = "2021"
publish = false

[dependencies]
ckb-hash = "*"
ckb-std = "*"
