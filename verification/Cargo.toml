[package]
name = "polonius"
version = "0.1.0"
edition = "2021"
publish = false

[dependencies]
eyre = "*"
glob = "*"
html-escape = "*"
itertools = "*"
peg = "*"
