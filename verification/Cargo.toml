[package]
name = "simple_ledger"
version = "0.1.0"
edition = "2021"
publish = false

[dependencies]
k256 = "0.13"
hex = "0.4"
serde = { version = "1", features = ["derive"] }
serde_json = "1"
clap = { version = "4", features = ["derive"] }
rand = "0.8"
names = "0.14"
