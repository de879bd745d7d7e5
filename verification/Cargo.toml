[package]
name = "ringbuf"
version = "0.1.0"
edition = "2021"
publish = false

[dependencies]
core_affinity = "=0.8.3"
libc = "0.2"
structopt = "=0.3.26"
