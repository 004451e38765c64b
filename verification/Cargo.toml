[package]
name = "rsdkv6_extract"
version = "0.1.0"
edition = "2021"
publish = false

[dependencies]
md5 = "*"
json = "*"
sqlite = "*"
dunce = "*"
