[package]
name = "sort_it"
version = "0.2.2"
edition = "2021"
publish = false

[dependencies]
rand = "0.8"
