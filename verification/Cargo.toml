[package]
name = "sb3c"
version = "0.1.0"
edition = "2021"
publish = false

[dependencies]
json = "0.12"
md5 = "0.7"
rand = "0.8"
zip = { version = "0.6", default-features = false, features = ["deflate"] }
