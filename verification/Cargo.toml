[package]
name = "blog_starter_rs"
version = "0.1.0"
edition = "2021"
publish = false

[dependencies]
pulldown-cmark = "*"
syntect = "*"
serde_yaml = "*"
