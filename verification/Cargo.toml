[package]
name = "token_ledger"
version = "0.1.0"
edition = "2021"

[dependencies]
candid = "*"
ic-cdk = "*"
