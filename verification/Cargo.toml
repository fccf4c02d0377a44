[package]
name = "ckb_ecs"
version = "0.1.0"
edition = "2021"
publish = false

[dependencies]
base64 = "*"
blake2b-rs = "*"
ckb-std = "*"
molecule = "*"
