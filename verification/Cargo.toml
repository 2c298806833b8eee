[package]
name = "deviltool"
version = "0.1.0"
edition = "2021"
publish = false

[dependencies]
byteorder = "1"
bytesize = "0.2"
clap = "2"
error-chain = "0.12"
filetime = "0.2"
image = { version = "0.18", default-features = false, features = ["png_codec"] }
nom = "3"
time = "0.1"
