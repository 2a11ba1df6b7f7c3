[package]
name = "heif_serialize"
version = "0.1.0"
edition = "2021"
publish = false

[dev-dependencies]
zenavif-parse = "*"
