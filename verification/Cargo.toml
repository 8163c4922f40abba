[package]
name = "dfe_core"
version = "0.1.0"
edition = "2021"
publish = false

[dependencies]
sharks = "0.5"
threshold_crypto = "0.4"
bincode = "1"
rand = "0.7"
