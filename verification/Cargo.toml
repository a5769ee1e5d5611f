[package]
name = "tokio-socketcan-bcm"
version = "2.0.0"
edition = "2021"
publish = false

[dependencies]
bitflags = "=1.3.2"
embedded-can = "=0.4.1"
futures = "=0.3.34"
libc = "=0.2.191"
mio = { version = "=0.8.11", features = ["os-ext"] }
nix = "0.20"
socketcan = "=1.7.0"
tokio = { version = "=1.54.1", features = ["net"] }
