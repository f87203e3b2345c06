[package]
name = "blast"
version = "0.1.0"
edition = "2021"
publish = false

[dependencies]
alsa-sys = "0.3"
libc = "0.2"
