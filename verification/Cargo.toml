[package]
name = "toss"
version = "0.1.0"
edition = "2021"
publish = false

[dependencies]
regex = "=1.13.1"
unicode-width = "=0.2.3"
crossterm = "=0.29.0"
lexopt = "=0.3.2"
ansi-control-codes = { version = "=1.0.1", features = ["parser"] }
