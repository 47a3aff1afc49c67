[package]
name = "mirror_copy"
version = "0.1.0"
edition = "2021"
publish = false

[dependencies]
walkdir = "2"
rayon = "1"
structopt = "0.3"
indicatif = "0.17"
