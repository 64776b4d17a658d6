[package]
name = "fee_events"
version = "0.1.0"
edition = "2021"
publish = false

[dependencies]
itertools = "*"
serde = "*"
serde_derive = "*"
tendermint = "*"
tendermint-rpc = "*"
