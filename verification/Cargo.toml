[package]
name = "fqview"
version = "0.1.0"
edition = "2021"
publish = false

[dependencies]
archive-reader = "*"
fltk = "*"
fltk-theme = "*"
human_bytes = "*"
image = "*"
libheif-rs = "*"
speedy2d = "*"
zip = "*"
