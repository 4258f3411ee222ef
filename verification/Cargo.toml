[package]
name = "wast_parser"
version = "0.1.0"
edition = "2021"
publish = false

[dependencies]
wain-ast = "=0.1.3"
wain-syntax-text = "=0.1.2"
