[package]
name = "repose"
version = "0.1.0"
edition = "2021"
publish = false

[dependencies]
base64 = "*"
getopts = "*"
glob = "*"
libarchive = "*"
libc = "*"
rand = "*"
rust-crypto = "*"
time = "*"
uname = "*"
