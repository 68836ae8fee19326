[package]
name = "docstore_bench"
version = "0.1.0"
edition = "2021"
publish = false

[dependencies]
ejdb = "*"
rand = "0.8"
