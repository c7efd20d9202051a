[package]
name = "f4merge"
version = "0.1.0"
edition = "2021"
publish = false

[dependencies]
argh = "*"
log = "*"
stderrlog = "*"
thiserror = "*"
