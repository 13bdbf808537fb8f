[package]
name = "decentralized_election"
version = "0.1.0"
edition = "2021"
publish = false

[dependencies]
anchor-lang = "0.26"
rand = "0.7"
shellexpand = "2"
