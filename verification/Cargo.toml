[package]
name = "candy"
version = "0.1.0"
edition = "2021"
publish = false

[dependencies]
unicode-width = "=0.2.3"
itertools = "=0.15.0"
num-bigint = "=0.5.1"
rustc-hash = "=2.1.3"
structopt = "0.3"
