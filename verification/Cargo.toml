[package]
name = "libspa"
version = "0.1.0"
edition = "2021"
publish = false

[dependencies]
errno = "*"

[dev-dependencies]
libc = "*"
