[package]
name = "ytgrep"
version = "0.1.0"
edition = "2021"
publish = false

[dependencies]
percent-encoding = "*"
reqwest = { version = "*", default-features = false, features = ["blocking", "gzip", "rustls-tls"] }
