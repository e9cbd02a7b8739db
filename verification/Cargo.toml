[package]
name = "console_api"
version = "0.1.0"
edition = "2021"
publish = false

[dependencies]
prost = "0.12"
prost-types = "0.12"
