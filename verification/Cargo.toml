[package]
name = "paragraph_layout"
version = "0.1.0"
edition = "2021"
publish = false

[dependencies]
png = "*"
skia-safe = "*"
