[package]
name = "cirno"
version = "0.1.0"
edition = "2021"
publish = false

[dependencies]
chess = "3.2"
rand = "0.8"
nohash-hasher = "0.2"
vampirc-uci = "0.11"
colored = "2"
mimalloc = "0.1"
