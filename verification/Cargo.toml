[package]
name = "spl_math_example"
version = "0.1.0"
edition = "2021"
publish = false

[dependencies]
solana-program = "*"
borsh = "*"
thiserror = "*"
num-derive = "*"
num-traits = "*"
