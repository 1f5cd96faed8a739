[package]
name = "blockchain"
version = "0.1.0"
edition = "2021"
publish = false

[dependencies]
sled = "=0.34.7"
ring = "=0.17.14"
bs58 = "=0.5.1"
uuid = { version = "=1.27.0", features = ["v4"] }
rust-crypto = "=0.2.36"
serde = { version = "=1.0.229", features = ["derive"] }
serde_json = "=1.0.151"
bincode = "=1.3.3"
structopt = "=0.3.26"
