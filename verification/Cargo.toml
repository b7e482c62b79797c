[package]
name = "kicad_text_injector"
version = "0.1.0"
edition = "2021"
publish = false

[dependencies]
repvar = "*"
clap = "*"
