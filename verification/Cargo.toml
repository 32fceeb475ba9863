[package]
name = "dupelib"
version = "0.1.0"
edition = "2021"
publish = false

[dependencies]
seahash = "*"
clap = { version = "*", features = ["derive"] }
walkdir = "*"
rayon = "*"
