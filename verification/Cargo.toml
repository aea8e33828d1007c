[package]
name = "elf2tab"
version = "0.1.0"
edition = "2021"
publish = false

[dependencies]
chrono = "0.4"
elf = "0.0.10"
structopt = "0.3"
tar = "0.4"
