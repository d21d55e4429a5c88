[package]
name = "gdscript_foli"
version = "0.1.0"
edition = "2021"
publish = false

[dependencies]
anyhow = "*"
dotenvy = "*"
miette = { version = "*", features = ["fancy"] }
owo-colors = "*"
tracing = "*"
tracing-subscriber = "*"
tree-sitter = "*"
tree-sitter-gdscript = "*"
walkdir = "*"
