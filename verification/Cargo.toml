[package]
name = "unicode_lookup"
version = "0.1.0"
edition = "2021"

[dependencies]
regex = "*"
clap = { version = "*", features = ["derive"] }
