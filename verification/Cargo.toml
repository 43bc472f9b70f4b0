[package]
name = "hobby_kernel"
version = "0.1.0"
edition = "2021"
publish = false

[dependencies]
volatile = "0.2"
