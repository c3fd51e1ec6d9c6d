[package]
name = "pitch"
version = "0.1.0"
edition = "2021"
publish = false

[dependencies]
microfft = { version = "*", features = ["size-16384"] }
num-complex = { version = "*", default-features = false }
colorous = "*"
