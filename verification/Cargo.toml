[package]
name = "jamon"
version = "0.1.0"
edition = "2021"
publish = false

[dependencies]
num-rational = { version = "=0.4.2", default-features = false, features = ["std"] }
num-traits = "=0.2.19"
museair = "=0.6.0"
rand = "=0.9.5"
ffmpeg-sidecar = "=2.7.0"
eyre = "=0.6.14"
