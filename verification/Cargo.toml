[package]
name = "heineos"
version = "0.1.0"
edition = "2021"
publish = false

[dependencies]
tar-no-std = "0.3"
log = "0.4"
