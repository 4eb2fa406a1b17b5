[package]
name = "vopono"
version = "0.1.0"
edition = "2021"
publish = false

[dependencies]
anyhow = "*"
directories-next = "*"
log = "*"
nix = { version = "*", features = ["user"] }
users = "*"
walkdir = "*"
