[package]
name = "dico-pallets"
version = "0.1.0"
edition = "2021"
publish = false

[dependencies]
parity-scale-codec = { version = "3", default-features = false, features = ["std"] }
