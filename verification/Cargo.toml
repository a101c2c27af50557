[package]
name = "magicjarlib"
version = "0.1.0"
edition = "2021"
publish = false

[dependencies]
shell-words = "1.1"
clap = { version = "4", features = ["derive"] }
