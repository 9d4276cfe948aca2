[package]
name = "ansi_parser"
version = "0.1.0"
edition = "2021"

[dev-dependencies]
unicode-width = "*"
