[package]
name = "zk_ledger"
version = "0.1.0"
edition = "2021"
publish = false

[dependencies]
plonky2 = "*"
anyhow = "*"
serde = { version = "*", features = ["derive"] }
