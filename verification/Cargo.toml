[package]
name = "fftemplates"
version = "0.1.0"
edition = "2021"
publish = false

[dependencies]
clap = "2"
dirs = "2"
fs_extra = "1"
regex = "1"
rusqlite = { version = "0.21", features = ["bundled"] }
tempfile = "3"
