[package]
name = "dnstest"
version = "0.1.0"
edition = "2021"
publish = false

[dependencies]
shellexpand = "*"
trust-dns-resolver = "*"
