[package]
name = "text_blocks"
version = "1.2.0"
edition = "2021"
publish = false

[dependencies]
unicode-width = "*"
