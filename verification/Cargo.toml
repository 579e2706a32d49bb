[package]
name = "agave_rift_scheduler"
version = "0.1.0"
edition = "2021"
publish = false

[dependencies]
agave-scheduling-utils = { version = "~4.2", features = ["agave-unstable-api"] }
ahash = "=0.8.12"
arbitrary = { version = "=1.5.0", features = ["derive"] }
crossbeam-channel = "=0.5.17"
solana-cost-model = { version = "~4.2", features = ["agave-unstable-api"] }
solana-pubkey = "4"
solana-runtime-transaction = { version = "~4.2", features = ["agave-unstable-api"] }
