[package]
name = "piano_vision"
version = "0.1.0"
edition = "2021"
publish = false

[dependencies]
ghakuf = "*"
opencv = "*"
