[package]
name = "aoike"
version = "0.1.0"
edition = "2021"
publish = false

[dependencies]
pulldown-cmark = "*"
syntect = { version = "*", default-features = false, features = ["default-fancy"] }
time = "*"
