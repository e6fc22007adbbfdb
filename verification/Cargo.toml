[package]
name = "psp_prx_decrypter"
version = "0.1.0"
edition = "2021"
publish = false

[dependencies]
aes = "0.8"
cbc = "0.1"
des = "0.8"
sha1 = "0.10"
flate2 = "1"
zlib-rs = "*"
atoi = "2"
thiserror = "1"
