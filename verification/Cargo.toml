[package]
name = "minigrep"
version = "0.1.0"
edition = "2021"
publish = false

[dependencies]
regex = "1"
colored = "2"
walkdir = "2"
clap = { version = "4", features = ["derive"] }
