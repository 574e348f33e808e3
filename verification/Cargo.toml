[package]
name = "miden_vm"
version = "0.1.0"
edition = "2021"
publish = false

[dependencies]
miden-crypto = "=0.22.6"
serde = { version = "1", features = ["derive"] }
thiserror = "2"
winter-rand-utils = "*"
