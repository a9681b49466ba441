[package]
name = "symiosis"
version = "0.1.0"
edition = "2021"
publish = false

[dependencies]
toml = "*"
nucleo-matcher = "*"
pulldown-cmark = "*"
html-escape = "*"
regex = "*"
home = "*"
global-hotkey = "*"
serde = { version = "1", features = ["derive"] }
notify = "*"
walkdir = "*"
