[package]
name = "uaedb"
version = "0.1.0"
edition = "2021"
publish = false

[dependencies]
anyhow = "1"
clap = { version = "4", features = ["derive"] }
lz4 = "1"
tempfile = "3"
xz2 = "0.1"
