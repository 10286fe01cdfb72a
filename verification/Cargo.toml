[package]
name = "typed_ini"
version = "0.1.0"
edition = "2021"
publish = false

[dependencies]
configparser = "*"
