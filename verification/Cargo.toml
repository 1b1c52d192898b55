[package]
name = "openzeppelin_macros"
version = "0.1.0"
edition = "2021"
publish = false

[dependencies]
cairo-lang-defs = "=2.21.0"
cairo-lang-formatter = "=2.21.0"
cairo-lang-macro = "=0.2.2"
cairo-lang-parser = "=2.21.0"
cairo-lang-plugins = "=2.21.0"
cairo-lang-primitive-token = "=1.0.0"
cairo-lang-starknet-classes = "=2.21.0"
cairo-lang-syntax = "=2.21.0"
convert_case = "=0.12.0"
indoc = "=2.0.8"
nom = "=8.0.0"
proc-macro2 = "=1.0.107"
quote = "=1.0.47"
regex = "=1.13.1"
