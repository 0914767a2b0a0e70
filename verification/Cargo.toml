[package]
name = "clingo"
version = "0.1.0"
edition = "2021"
publish = false

[dependencies]
clingo-sys = "=0.7.2"
proc-macro2 = "1"
quote = "1"
syn = "2"
