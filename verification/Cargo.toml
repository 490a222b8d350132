[package]
name = "voting_ledger"
version = "0.1.0"
edition = "2021"
publish = false

[dependencies]
hex = "0.4"
sha2 = "0.10"
serde = { version = "1", features = ["derive"] }
candid = "0.10"
ic-cdk = "*"
