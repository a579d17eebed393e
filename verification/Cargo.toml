[package]
name = "dir_reconcile"
version = "0.1.0"
edition = "2021"
publish = false

[dependencies]
chrono = "0.4"
clap = "2.34"
rust-crypto = "0.2.36"
