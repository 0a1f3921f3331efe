[package]
name = "catch22_rs"
version = "0.1.0"
edition = "2021"
publish = false

[dependencies]
num = "*"
itertools = "*"
unwrap-ord = "*"
thiserror = "*"
