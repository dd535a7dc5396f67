[package]
name = "stang"
version = "0.1.0"
edition = "2021"
publish = false

[dependencies]
bitset = "*"
clap = { version = "4", features = ["derive"] }
smallvec = "1"
