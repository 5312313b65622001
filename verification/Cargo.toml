[package]
name = "adler32_checksum_rs"
version = "0.1.0"
edition = "2021"
publish = false

[dependencies]
byteorder = "1"
rayon = "1"
