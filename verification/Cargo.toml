[package]
name = "block_stage"
version = "0.1.0"
edition = "2021"
publish = false

[dependencies]
ahash = "=0.8.12"
scc = "=3.8.8"
solana-account = "=5.1.1"
solana-clock = "=4.0.0"
solana-perf = "=3.1.14"
solana-pubkey = "=4.4.0"
solana-sdk-ids = "=3.1.0"
