[package]
name = "rtlauncher"
version = "0.1.0"
edition = "2021"
publish = false

[dependencies]
os_info = "*"
reqwest = { version = "*", default-features = false }
walkdir = "*"
zip = { version = "*", default-features = false, features = ["deflate"] }
