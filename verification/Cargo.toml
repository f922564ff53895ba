[package]
name = "rstack"
version = "0.1.0"
edition = "2021"
publish = false

[dependencies]
libc = "*"
goblin = "*"
cpp_demangle = "*"
rustc-demangle = "*"
