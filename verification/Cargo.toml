[package]
name = "libipc"
version = "0.1.0"
edition = "2021"
publish = false

[dependencies]
libc = "0.2"
flatbuffers = "*"
slab = "0.4"
bumpalo = "3"
