[package]
name = "evrecovery"
version = "0.1.0"
edition = "2021"
publish = false

[dependencies]
libflate = "*"
clap = "2"
