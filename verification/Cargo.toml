[package]
name = "kakpipe"
version = "0.1.0"
edition = "2021"
publish = false

[dependencies]
anyhow = "1"
argh = "0.1"
async-process = "2"
async-std = { version = "1", features = ["unstable"] }
byteorder = "1"
daemonize = "0.5"
nix = { version = "0.31", features = ["fs"] }
rand = "0.8"
yew-ansi = { version = "0.2", default-features = false }
