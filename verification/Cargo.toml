[package]
name = "server_starter"
version = "0.1.0"
edition = "2021"
publish = false

[dependencies]
libc = "0.2"
nix = { version = "0.30", features = ["process", "signal"] }
socket2 = "0.6"
