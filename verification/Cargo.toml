[package]
name = "clipdeck"
version = "0.1.0"
edition = "2021"
publish = false

[dependencies]
rand = "*"
hound = "*"
savefile = "*"
savefile-derive = "*"
