[package]
name = "professional_networking"
version = "0.1.0"
edition = "2021"
publish = false

[dependencies]
solana-program = "=1.18.26"
spl-token = { version = "=4.0.3", features = ["no-entrypoint"] }

[dev-dependencies]
borsh = "=0.10.4"
