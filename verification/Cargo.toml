[package]
name = "i3_style"
version = "1.0.0"
edition = "2021"
publish = false

[dependencies]
clap = "2"
includedir = "0.6"
lazy_static = "1"
linked-hash-map = "0.5"
palette = "0.7"
phf = "0.8"
yaml-rust = "0.4"
