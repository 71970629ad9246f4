[package]
name = "boreal"
version = "0.1.0"
edition = "2021"
publish = false

[dependencies]
aho-corasick = "0.7"
regex = "1"
codespan-reporting = "0.11"
clap = { version = "4", features = ["cargo"] }
crossbeam-channel = "0.5"
walkdir = "2"
hex = "0.4"
