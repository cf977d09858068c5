[package]
name = "slt"
version = "0.1.0"
edition = "2021"
publish = false

[dependencies]
unicode-width = "*"
unicode-segmentation = "*"
crossterm = "*"
qrcode = { version = "*", default-features = false }
