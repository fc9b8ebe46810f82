[package]
name = "minfetch"
version = "0.1.0"
edition = "2021"
publish = false

[dependencies]
libc = "=0.2.191"
sysinfo = "=0.37.2"
unicode-width = "=0.2.3"
