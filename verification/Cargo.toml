[package]
name = "lind"
version = "0.1.0"
edition = "2021"
publish = false

[dependencies]
dashmap = "6"
ringbuf = "0.2"
libc = "0.2"
lazy_static = "1"
once_cell = "1"
parking_lot = "0.12"
