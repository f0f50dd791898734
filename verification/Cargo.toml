[package]
name = "staking_miner"
version = "0.1.0"
edition = "2021"
publish = false

[dependencies]
sp-npos-elections = "*"
sp-arithmetic = "*"
parity-scale-codec = "*"
serde = { version = "1", features = ["derive"] }
serde_json = "1"
clap = { version = "4", features = ["derive"] }
log = "0.4"
