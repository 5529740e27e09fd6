[package]
name = "accelerate"
version = "0.1.0"
edition = "2021"
publish = false

[dependencies]
regex = "1"
clap = "4"
colored = "2"
ansi_term = "0.12"
