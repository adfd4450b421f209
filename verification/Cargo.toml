[package]
name = "blogview"
version = "0.1.0"
edition = "2021"
publish = false

[dependencies]
crc32c = "*"
flate2 = "*"
jiff = "*"
json-escape-simd = "*"
base64-simd = "*"
base64 = "*"
ryu = "*"
itoa = "*"
memchr = "*"
