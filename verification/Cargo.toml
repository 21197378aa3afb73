[package]
name = "watch-list"
version = "0.1.0"
edition = "2021"
publish = false

[dependencies]
regex = "1"
clap = { version = "4", features = ["derive"] }
colored = "2"
dirs = "5"
log = "0.4"
tini = "1"
