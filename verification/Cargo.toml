[package]
name = "georef"
version = "0.1.0"
edition = "2021"
publish = false

[dependencies]
getopts = "*"
image = { version = "*", default-features = false, features = ["jpeg", "png", "gif", "tiff", "bmp"] }
rustc-serialize = "*"
