[package]
name = "candy_frontend"
version = "0.1.0"
edition = "2021"
publish = false

[dependencies]
num-bigint = "0.4"
unicode-segmentation = "1"
url = "2"
dunce = "1"
shellexpand = "3"
