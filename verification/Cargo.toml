[package]
name = "rwedit"
version = "0.1.0"
edition = "2021"
publish = false

[dependencies]
unicode-segmentation = "1"
unicode-width = "0.1"
tui = "0.19"
crossterm = "0.25"
copypasta = "0.8"
