[package]
name = "sigscan"
version = "0.1.0"
edition = "2021"
publish = false

[dependencies]
hex = "0.4"
crossbeam = "0.8"
rayon = "1"
walkdir = "2"
