[package]
name = "in-situ"
version = "0.1.0"
edition = "2021"
publish = false

[dependencies]
bstr = { version = "1", default-features = false }
byteorder = "1"
bytes = "1"
