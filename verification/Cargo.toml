[package]
name = "ass"
version = "0.1.0"
edition = "2021"
publish = false

[dependencies]
cassowary = "*"
fontdue = "*"
minifb = "*"
