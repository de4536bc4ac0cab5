[package]
name = "alexdb"
version = "0.1.0"
edition = "2021"
publish = false

[dependencies]
bitvec = "1"
regex = "1"
csv = "1"
rustyline = "*"
