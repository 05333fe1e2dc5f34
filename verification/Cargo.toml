[package]
name = "botbot"
version = "0.1.0"
edition = "2021"
publish = false

[dependencies]
regex = "1"
unidecode = "*"
sqlite = "*"
procfs = "*"
