[package]
name = "libsurfer"
version = "0.1.0"
edition = "2021"
publish = false

[dependencies]
num = "0.4"
pure-rust-locales = "*"
sys-locale = "*"
ecolor = "*"
tracing = "0.1"
