[package]
name = "nft_merge"
version = "0.1.0"
edition = "2021"
publish = false

[dependencies]
anchor-lang = "0.24.2"
anchor-spl = "0.24.2"
solana-program = "1.9"
spl-token = { version = "3.3", features = ["no-entrypoint"] }
metaplex-token-metadata = { version = "0.0.1", features = ["no-entrypoint"] }
arrayref = "0.3.9"
thiserror = "1.0.69"
num-derive = "0.3.3"
num-traits = "0.2.19"
