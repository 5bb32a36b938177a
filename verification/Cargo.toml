[package]
name = "epub"
version = "0.1.0"
edition = "2021"
publish = false

[dependencies]
xml-rs = "0.8"
zip = { version = "0.6", default-features = false, features = ["deflate"] }
