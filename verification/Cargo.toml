[package]
name = "chip"
version = "0.1.0"
edition = "2021"
publish = false

[dependencies]
indexmap = "2.14.2"
itertools = "0.14.0"
lalrpop-util = "0.22.2"
