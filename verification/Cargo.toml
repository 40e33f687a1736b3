[package]
name = "turbofind"
version = "0.1.0"
edition = "2021"
publish = false

[dependencies]
crossterm = "*"
dirs = "*"
nucleo = "*"
pdf-extract = "*"
postcard = { version = "1", features = ["use-std"] }
rayon = "1"
regex = "1"
serde = { version = "1", features = ["derive"] }
walkdir = "2"
zip = { version = "2", default-features = false, features = ["deflate"] }
