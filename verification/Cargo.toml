[package]
name = "wshttp"
version = "0.1.0"
edition = "2021"
publish = false

[dependencies]
base64 = "0.22"
bytes = "1"
httparse = "1"
percent-encoding = "2"
sha1 = "0.10"
