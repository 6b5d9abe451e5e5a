[package]
name = "lroot"
version = "0.1.0"
edition = "2021"
publish = false

[dependencies]
flate2 = "1"
libc = "0.2"
log = "0.4"
nix = { version = "0.29", features = ["term", "fs", "process", "signal"] }
reqwest = { version = "0.12", default-features = false, features = ["blocking", "rustls-tls"] }
tar = "0.4"
