[package]
name = "rucco"
version = "0.1.0"
edition = "2021"
publish = false

[dependencies]
regex = "1"
toml = "*"
walkdir = "2"
rayon = "1"
clap = "4"
