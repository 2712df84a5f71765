[package]
name = "debsource"
version = "0.1.0"
edition = "2021"
publish = false

[dependencies]
glob = "0.3"
indicatif = "0.17"
colored = "2"
log = "0.4"
