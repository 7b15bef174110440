[package]
name = "prefault"
version = "0.1.0"
edition = "2021"
publish = false

[dependencies]
config = "0.10"
ctrlc = "3"
failure = "0.1"
lazy_static = "1"
libc = "0.2"
pretty-bytes = "0.2"
rayon = "1"
structopt = "0.3"
walkdir = "2"
