[package]
name = "markdown"
version = "0.1.0"
edition = "2021"
publish = false

[dependencies]
twox-hash = "1"
urlencoding = "2"
pikchr = "*"
flate2 = "1"
time = { version = "0.3", features = ["local-offset"] }
ttf-parser = "*"
typst = "0.12"
typst-svg = "0.12"
typst-assets = { version = "0.12", features = ["fonts"] }
tar = "0.4"
ureq = "2"
