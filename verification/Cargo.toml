[package]
name = "cairo_lang"
version = "0.1.0"
edition = "2021"
publish = false

[dependencies]
itertools = "0.10"
num-bigint = "0.4"
num-traits = "0.2"
