[package]
name = "labkit"
version = "0.1.0"
edition = "2021"

[dependencies]
clap = { version = "4", features = ["derive"] }
itertools = "0.12"
walkdir = "2"
