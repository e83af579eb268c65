[package]
name = "tseq"
version = "0.1.0"
edition = "2021"
publish = false

[dependencies]
dirs = "5"

[dev-dependencies]
nom = "7"
