[package]
name = "trash_cli"
version = "0.1.0"
edition = "2021"
publish = false

[dependencies]
trash = "5"
