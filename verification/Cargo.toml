[package]
name = "html_discovery"
version = "0.1.0"
edition = "2021"
publish = false

[dependencies]
url = "=2.5.8"
time = "=0.1.45"
libc = "=0.2.191"
freetype = "=0.8.0"
