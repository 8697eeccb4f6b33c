[package]
name = "matgol"
version = "0.1.0"
edition = "2021"
publish = false

[dependencies]
pancurses = "0.17"
