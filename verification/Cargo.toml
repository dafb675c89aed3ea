[package]
name = "xlsx_trim"
version = "0.1.0"
edition = "2021"
publish = false

[dependencies]
anyhow = "*"
rayon = "*"
tempfile = "*"
walkdir = "*"
zip = "*"
