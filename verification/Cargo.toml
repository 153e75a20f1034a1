[package]
name = "fuzzy_aho_corasick"
version = "0.1.0"
edition = "2021"
publish = false

[dependencies]
unicode-segmentation = "*"
