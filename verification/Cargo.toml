[package]
name = "polkakernel"
version = "0.1.0"
edition = "2021"
publish = false

[dependencies]
polkavm = "*"
polkavm-linker = "*"
jam-codec = "*"
dirs = "*"
log = "*"
libc = "*"
