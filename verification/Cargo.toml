[package]
name = "shiguredo_websocket"
version = "0.1.0"
edition = "2021"
publish = false

[dependencies]
aws-lc-rs = "*"
base64ct = { version = "*", features = ["alloc"] }
noflate = "*"
shiguredo_http11 = "*"
