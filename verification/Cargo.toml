[package]
name = "xedit"
version = "0.1.0"
edition = "2021"
publish = false

[dependencies]
crc32fast = "=1.5.4"
flate2 = "=1.1.10"
walkdir = "=2.5.0"
