[package]
name = "tensoraudio"
version = "0.1.0"
edition = "2021"
publish = false

[dependencies]
hound = "3"
anyhow = "1"
log = "0.4"
tch = "*"
