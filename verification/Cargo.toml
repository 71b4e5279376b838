[package]
name = "grepr"
version = "0.1.0"
edition = "2021"

[dependencies]
clap = "2.33"
regex = "1"
walkdir = "2"

[dev-dependencies]
rand = "0.8"
