[package]
name = "bare"
version = "0.1.0"
edition = "2021"
publish = false

[dependencies]
regex = "*"
term = "*"
thiserror = "*"
displaydoc = "*"
ioe = "*"
