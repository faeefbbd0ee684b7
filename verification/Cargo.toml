[package]
name = "mail_send"
version = "0.1.0"
edition = "2021"
publish = false

[dependencies]
smtp-proto = "*"
tokio = { version = "*", default-features = false, features = ["io-util", "time"] }
wasmtimer = "*"
worker = "*"
