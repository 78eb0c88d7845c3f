[package]
name = "yx"
version = "0.1.0"
edition = "2021"
publish = false

[dependencies]
anyhow = "*"
atty = "*"
clap = { version = "*", features = ["derive"] }
git2 = { version = "*", default-features = false }
tempfile = "*"
walkdir = "*"
