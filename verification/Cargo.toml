[package]
name = "xitter_txid"
version = "0.1.0"
edition = "2021"
publish = false

[dependencies]
data-encoding = "*"
hmac-sha256 = "*"
minreq = "*"
