[package]
name = "equium-cuda-miner"
version = "0.1.0"
edition = "2021"
publish = false

[dependencies]
anchor-lang = "0.30"
anchor-spl = { version = "0.30", default-features = false, features = ["associated_token"] }
anyhow = "1"
clap = { version = "4", features = ["derive"] }
cudarc = { version = "0.12", default-features = false, features = ["std", "driver", "nvrtc", "cuda-12050"] }
env_logger = "0.11"
equihash = "0.2"
hex = "0.4"
rand = "0.8"
solana-sdk = "1.18"
