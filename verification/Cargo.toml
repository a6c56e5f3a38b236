[package]
name = "clarus"
version = "0.1.0"
edition = "2021"
publish = false

[dependencies]
crc16 = "*"
encoding_rs = "*"
memchr = "*"
radix64 = "*"
fixed = "*"
