[package]
name = "itui"
version = "0.1.0"
edition = "2021"
publish = false

[dependencies]
unicode-width = "0.1"
unicode-segmentation = "1"
cassowary = "0.3"
crossterm = "=0.20.0"
thiserror = "1"
pancurses = "0.17"
easycurses = "0.13"
