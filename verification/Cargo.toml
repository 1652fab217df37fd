[package]
name = "slopwrap"
version = "0.1.0"
edition = "2021"
publish = false

[dependencies]
anyhow = "*"
clap = { version = "*", features = ["derive"] }
libc = "*"
nix = { version = "*", features = ["fs", "signal"] }
tempfile = "*"
walkdir = "*"

[dev-dependencies]
arbtest = "*"
