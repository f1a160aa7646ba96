[package]
name = "comicpress"
version = "0.1.0"
edition = "2021"
publish = false

[dependencies]
anyhow = "*"
clap = { version = "*", features = ["derive"] }
crossbeam-channel = "*"
flate2 = "*"
image = "*"
indicatif = "*"
lopdf = "*"
rayon = "*"
tempfile = "*"
unrar = "*"
walkdir = "*"
webp = "*"
zip = { version = "*", default-features = false, features = ["deflate"] }
