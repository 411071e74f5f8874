[package]
name = "fozzie"
version = "0.1.0"
edition = "2021"
publish = false

[dependencies]
rayon = "1"
regex = "1"
clap = "2.33"
termion = "1.5"
raw_tty = "0.1"
term_size = "0.3"
