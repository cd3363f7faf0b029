[package]
name = "vanity_pool"
version = "0.1.0"
edition = "2021"
publish = false

[dependencies]
solana-sdk = "*"
bs58 = "*"
rayon = "*"
chrono = "*"
tokio = { version = "*", features = ["rt-multi-thread", "sync", "time", "macros"] }
