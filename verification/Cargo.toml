[package]
name = "civmods"
version = "0.1.0"
edition = "2021"
publish = false

[dependencies]
diffy = { version = "=0.5.2", features = ["std"] }
sha2 = "=0.11.0"
walkdir = "=2.5.0"
fs_extra = "=1.3.0"
zip = { version = "=8.6.0", default-features = false, features = ["deflate"] }
flate2 = "=1.1.10"
tar = "=0.4.46"
sevenz-rust = "=0.6.1"
unrar = "=0.5.8"
dirs = "=7.0.0"
