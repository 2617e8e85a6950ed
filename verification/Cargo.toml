[package]
name = "rusty_mikanos"
version = "0.1.0"
edition = "2021"
publish = false

[dependencies]
bit_field = "*"
spin = "*"
heapless = "*"
log = "*"
libm = "*"
