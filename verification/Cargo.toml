[package]
name = "staking_vault"
version = "0.1.0"
edition = "2021"
publish = false

[dependencies]
anchor-lang = "=0.28.0"
anchor-spl = "=0.28.0"
mpl-token-metadata = "=1.13.2"
spl-memo = { version = "=4.0.0", features = ["no-entrypoint"] }
spl-token = { version = "=4.0.0", features = ["no-entrypoint"] }
