[package]
name = "korhah"
version = "0.1.0"
edition = "2021"
publish = false

[dependencies]
ahash = "*"
indexmap = "*"
spin = "*"
educe = "*"
