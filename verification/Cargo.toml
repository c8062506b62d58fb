[package]
name = "block-benchie"
version = "0.1.0"
edition = "2021"
publish = false

[dependencies]
aligned-vec = "0.6"
clap = { version = "4", features = ["derive"] }
humantime = "2"
