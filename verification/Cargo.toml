[package]
name = "minttp"
version = "0.1.0"
edition = "2021"
publish = false

[dependencies]
http = "1"
native-tls = "0.2"
openssl = "0.10"
