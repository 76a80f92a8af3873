[package]
name = "gish"
version = "0.1.0"
edition = "2021"
publish = false

[dependencies]
anyhow = "1"
crossterm = "0.25"
hlua = "0.4"
home = "0.5"
libc = "0.2"
tui = "0.19"
